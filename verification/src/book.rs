use crate::order::Order;
use crate::types::{order_type_valid, side_valid, OrderTypeT, SideT};
use vstd::prelude::*;

verus! {

/// Strict "better for execution" relation for a book holding side `side`:
/// on the buy book a higher price wins, on the sell book a lower price
/// wins, and among equal prices the smaller (earlier) `seq_id` wins.
pub open spec fn prior(side: SideT, a: Order, b: Order) -> bool {
    if side == SideT::SELL {
        a.price < b.price || (a.price == b.price && a.seq_id < b.seq_id)
    } else {
        a.price > b.price || (a.price == b.price && a.seq_id < b.seq_id)
    }
}

/// Position at which `o` belongs in `s` under `prior(side, ..)`: just
/// before the first resting order that `o` beats, or at the end.
pub open spec fn insert_pos(side: SideT, s: Seq<Order>, o: Order) -> int
    decreases s.len(),
{
    if s.len() == 0 {
        0
    } else if prior(side, o, s[0]) {
        0
    } else {
        1 + insert_pos(side, s.drop_first(), o)
    }
}

/// The sequence `s` with `o` inserted at its priority position.
pub open spec fn spec_push(side: SideT, s: Seq<Order>, o: Order) -> Seq<Order> {
    s.insert(insert_pos(side, s, o), o)
}

/// Best-first strict ordering: every entry strictly beats all later ones.
pub open spec fn sorted(side: SideT, s: Seq<Order>) -> bool {
    forall|i: int, j: int| 0 <= i < j < s.len() ==> prior(side, s[i], s[j])
}

/// Every resting order belongs to this book: right side, a non-MARKET
/// recognized type, positive quantity and price.
pub open spec fn entries_ok(side: SideT, s: Seq<Order>) -> bool {
    forall|i: int|
        0 <= i < s.len() ==> {
            &&& #[trigger] s[i].side == side
            &&& s[i].order_type != OrderTypeT::MARKET
            &&& order_type_valid(s[i].order_type)
            &&& s[i].qty > 0
            &&& s[i].price > 0
        }
}

/// One side of the order book: resting orders kept best-first under the
/// side's price-time priority relation.
pub struct Book {
    pub side: SideT,
    pub orders: Vec<Order>,
}

impl View for Book {
    type V = Seq<Order>;

    open spec fn view(&self) -> Seq<Order> {
        self.orders@
    }
}

impl Book {
    pub open spec fn wf(self) -> bool {
        &&& side_valid(self.side)
        &&& sorted(self.side, self@)
        &&& entries_ok(self.side, self@)
    }

    pub fn new(side: SideT) -> (r: Book)
        requires
            side_valid(side),
        ensures
            r.wf(),
            r.side == side,
            r@ == Seq::<Order>::empty(),
    {
        let r = Book { side, orders: Vec::new() };
        proof {
            assert(r@ =~= Seq::<Order>::empty());
        }
        r
    }

    pub fn len(&self) -> (r: usize)
        ensures
            r == self@.len(),
    {
        self.orders.len()
    }

    /// The best resting order, if any: the one `peek` prefers.
    pub fn peek_best(&self) -> (r: Option<Order>)
        ensures
            match r {
                Some(o) => self@.len() > 0 && o == self@[0],
                None => self@.len() == 0,
            },
    {
        if self.orders.len() == 0 {
            None
        } else {
            Some(self.orders[0])
        }
    }

    /// Remove and return the best resting order, if any.
    pub fn pop_best(&mut self) -> (r: Option<Order>)
        requires
            old(self).wf(),
        ensures
            final(self).wf(),
            final(self).side == old(self).side,
            match r {
                Some(o) => old(self)@.len() > 0 && o == old(self)@[0] && final(self)@ == old(
                    self,
                )@.drop_first(),
                None => old(self)@.len() == 0 && final(self)@ == old(self)@,
            },
    {
        if self.orders.len() == 0 {
            None
        } else {
            let o = self.orders.remove(0);
            proof {
                assert(self@ =~= old(self)@.drop_first());
            }
            Some(o)
        }
    }

    /// Re-admit `o` at the front, for the transactional revert of a walk:
    /// `o` must beat everything resting, as it does when it was popped from
    /// this very book moments before.
    pub fn restore_best(&mut self, o: Order)
        requires
            old(self).wf(),
            o.side == old(self).side,
            o.order_type != OrderTypeT::MARKET,
            order_type_valid(o.order_type),
            o.qty > 0,
            o.price > 0,
            forall|i: int| 0 <= i < old(self)@.len() ==> prior(old(self).side, o, old(self)@[i]),
        ensures
            final(self).wf(),
            final(self).side == old(self).side,
            final(self)@ == seq![o] + old(self)@,
    {
        self.orders.insert(0, o);
        proof {
            assert(self@ =~= seq![o] + old(self)@);
        }
    }

    /// Admit `o` at its priority position. The caller supplies a `seq_id`
    /// not yet resting in this book, which keeps the ordering strict.
    pub fn push(&mut self, o: Order)
        requires
            old(self).wf(),
            o.side == old(self).side,
            o.order_type != OrderTypeT::MARKET,
            order_type_valid(o.order_type),
            o.qty > 0,
            o.price > 0,
            forall|i: int| 0 <= i < old(self)@.len() ==> old(self)@[i].seq_id != o.seq_id,
        ensures
            final(self).wf(),
            final(self).side == old(self).side,
            final(self)@ == spec_push(old(self).side, old(self)@, o),
    {
        let mut i: usize = 0;
        while i < self.orders.len() && !prior_exec(self.side, &o, &self.orders[i])
            invariant
                self == old(self),
                0 <= i <= self@.len(),
                forall|j: int| 0 <= j < i ==> !prior(self.side, o, self@[j]),
            decreases self@.len() - i,
        {
            i += 1;
        }
        proof {
            lemma_insert_pos_is_first(self.side, self@, o, i as int);
            lemma_push_sorted(self.side, self@, o);
        }
        self.orders.insert(i, o);
    }
}

/// Executable form of the priority relation.
pub fn prior_exec(side: SideT, a: &Order, b: &Order) -> (r: bool)
    ensures
        r == prior(side, *a, *b),
{
    if matches!(side, SideT::SELL) {
        a.price < b.price || (a.price == b.price && a.seq_id < b.seq_id)
    } else {
        a.price > b.price || (a.price == b.price && a.seq_id < b.seq_id)
    }
}

/// `insert_pos` is the first position whose entry `o` beats (or the length
/// when `o` beats none).
pub proof fn lemma_insert_pos_is_first(side: SideT, s: Seq<Order>, o: Order, k: int)
    requires
        0 <= k <= s.len(),
        forall|j: int| 0 <= j < k ==> !prior(side, o, s[j]),
        k < s.len() ==> prior(side, o, s[k]),
    ensures
        insert_pos(side, s, o) == k,
    decreases s.len(),
{
    if s.len() == 0 {
    } else if prior(side, o, s[0]) {
        assert(k == 0);
    } else {
        assert(k >= 1);
        lemma_insert_pos_is_first(side, s.drop_first(), o, k - 1);
    }
}

pub proof fn lemma_insert_pos_bounds(side: SideT, s: Seq<Order>, o: Order)
    ensures
        0 <= insert_pos(side, s, o) <= s.len(),
    decreases s.len(),
{
    if s.len() == 0 {
    } else if prior(side, o, s[0]) {
    } else {
        lemma_insert_pos_bounds(side, s.drop_first(), o);
    }
}

/// The relation is total on same-side orders with distinct `seq_id`s.
pub proof fn lemma_prior_total(side: SideT, a: Order, b: Order)
    requires
        a.seq_id != b.seq_id,
    ensures
        prior(side, a, b) || prior(side, b, a),
{
}

/// Inserting an order with a fresh `seq_id` at its priority position keeps
/// the book strictly sorted, and keeps its entries well formed.
pub proof fn lemma_push_sorted(side: SideT, s: Seq<Order>, o: Order)
    requires
        sorted(side, s),
        forall|i: int| 0 <= i < s.len() ==> s[i].seq_id != o.seq_id,
    ensures
        sorted(side, spec_push(side, s, o)),
        entries_ok(side, s) && o.side == side && o.order_type != OrderTypeT::MARKET
            && order_type_valid(o.order_type) && o.qty > 0 && o.price > 0 ==> entries_ok(
            side,
            spec_push(side, s, o),
        ),
    decreases s.len(),
{
    lemma_insert_pos_bounds(side, s, o);
    let p = insert_pos(side, s, o);
    lemma_insert_pos_least(side, s, o);
    let t = spec_push(side, s, o);
    assert forall|i: int, j: int| 0 <= i < j < t.len() implies prior(side, t[i], t[j]) by {
        if i == p {
            // t[i] == o, t[j] == s[j - 1] with j - 1 >= p
            assert(t[j] == s[j - 1]);
            if j - 1 == p {
                assert(prior(side, o, s[p]));
            } else {
                assert(prior(side, s[p], s[j - 1]));
                assert(prior(side, o, s[p]));
            }
        } else if j == p {
            // t[i] == s[i] with i < p, so o does not beat it; totality gives
            // that it beats o.
            assert(t[i] == s[i]);
            assert(!prior(side, o, s[i]));
            lemma_prior_total(side, o, s[i]);
        } else if i < p && j < p {
            assert(t[i] == s[i] && t[j] == s[j]);
        } else if i < p && j > p {
            assert(t[i] == s[i] && t[j] == s[j - 1]);
            if i == j - 1 {
                assert(!prior(side, o, s[i]));
                lemma_prior_total(side, o, s[i]);
                assert(prior(side, s[i], o));
                assert(prior(side, o, s[j - 1]) || i < j - 1);
                assert(false) by {
                    assert(prior(side, o, s[j - 1]));
                    assert(prior(side, s[j - 1], o));
                }
            } else {
                assert(prior(side, s[i], s[j - 1]));
            }
        } else {
            assert(t[i] == s[i - 1] && t[j] == s[j - 1]);
        }
    }
}

/// Every position before `insert_pos` holds an entry `o` does not beat,
/// and the entry at `insert_pos` (if any) is beaten by `o`.
pub proof fn lemma_insert_pos_least(side: SideT, s: Seq<Order>, o: Order)
    ensures
        forall|j: int| 0 <= j < insert_pos(side, s, o) ==> !prior(side, o, s[j]),
        insert_pos(side, s, o) < s.len() ==> prior(side, o, s[insert_pos(side, s, o)]),
    decreases s.len(),
{
    lemma_insert_pos_bounds(side, s, o);
    if s.len() == 0 {
    } else if prior(side, o, s[0]) {
    } else {
        lemma_insert_pos_least(side, s.drop_first(), o);
        lemma_insert_pos_bounds(side, s.drop_first(), o);
        let p = insert_pos(side, s, o);
        assert forall|j: int| 0 <= j < p implies !prior(side, o, s[j]) by {
            if j > 0 {
                assert(!prior(side, o, s.drop_first()[j - 1]));
                assert(s.drop_first()[j - 1] == s[j]);
            }
        }
        if p < s.len() {
            assert(s.drop_first()[p - 1] == s[p]);
        }
    }
}

/// Total resting quantity of a sequence of orders.
pub open spec fn total_qty(s: Seq<Order>) -> int
    decreases s.len(),
{
    if s.len() == 0 {
        0
    } else {
        s[0].qty + total_qty(s.drop_first())
    }
}

pub proof fn lemma_total_qty_insert(s: Seq<Order>, i: int, o: Order)
    requires
        0 <= i <= s.len(),
    ensures
        total_qty(s.insert(i, o)) == total_qty(s) + o.qty,
    decreases s.len(),
{
    let t = s.insert(i, o);
    if i == 0 {
        assert(t[0] == o);
        assert(t.drop_first() =~= s);
    } else {
        assert(t[0] == s[0]);
        assert(t.drop_first() =~= s.drop_first().insert(i - 1, o));
        lemma_total_qty_insert(s.drop_first(), i - 1, o);
    }
}

} // verus!
