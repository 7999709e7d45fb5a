use crate::book::{
    entries_ok, prior, sorted, spec_push, Book,
};
use crate::order::Order;
use crate::trade::Trade;
use crate::types::{opposite_side, order_type_valid, side_valid, OrderTypeT, SideT};
use vstd::prelude::*;

verus! {

/// One externally visible change produced by processing a submission:
/// either a new resting maker or an executed trade. The mutation list
/// returned by a successful submission is the authoritative, ordered event
/// log for that submission: its trades in walk order, then the taker's own
/// posting if any. An unfilled maker split by the final trade returns to
/// its book without a mutation.
#[derive(Debug, Clone, Copy)]
pub enum LedgerMutation {
    AddedMakerOrder(Order),
    TradeExecuted(Trade),
}

/// The only ledger-level rejection: a MARKET order found no resting
/// liquidity to finish against; the books are left unchanged.
#[derive(Debug, PartialEq, Eq, Structural, Clone, Copy)]
pub enum AddOrderError {
    NotEnoughOrdersToFillMarketOrder,
}

pub type AddOrderResults = Result<Vec<LedgerMutation>, AddOrderError>;

/// Retained error name for callers that predate `AddOrderError`.
#[derive(Debug, Clone, Copy)]
pub enum NewOrderError {
    MarketOrderWithEmptyLedger,
}

/// Whether an incoming `taker` may execute against a resting `maker`:
/// a MARKET taker matches any candidate, a LIMIT or LIMIT_MAKER taker
/// matches when the candidate's price is acceptable (equality matches).
pub open spec fn crosses(taker: Order, maker: Order) -> bool {
    ||| taker.order_type == OrderTypeT::MARKET
    ||| (taker.side == SideT::BUY && maker.price <= taker.price)
    ||| (taker.side == SideT::SELL && maker.price >= taker.price)
}

/// Outcome of the matching walk over the opposite book, before the ledger
/// stamps and posts the residual: the trades in walk order, the opposite
/// book after its pops, and the order left to post (the unfilled taker, or
/// an unfilled maker from a splitting final trade), still unstamped.
#[verifier::ext_equal]
pub struct WalkOutcome {
    pub trades: Seq<Trade>,
    pub opp: Seq<Order>,
    pub post: Option<Order>,
}

/// The bounded fixed-point walk of a submission across the opposite book
/// `opp` (best first). `None` means a MARKET taker ran out of liquidity and
/// the submission aborts.
pub open spec fn walk(opp: Seq<Order>, taker: Order) -> Option<WalkOutcome>
    decreases opp.len(),
{
    if opp.len() == 0 || !crosses(taker, opp[0]) {
        if taker.order_type == OrderTypeT::MARKET {
            None
        } else {
            Some(WalkOutcome { trades: Seq::empty(), opp, post: Some(taker) })
        }
    } else {
        let maker = opp[0];
        let t = Trade { taker, maker };
        if taker.qty < maker.qty {
            Some(
                WalkOutcome {
                    trades: seq![t],
                    opp: opp.drop_first(),
                    post: Some(maker.with_qty((maker.qty - taker.qty) as u64)),
                },
            )
        } else if taker.qty > maker.qty {
            match walk(opp.drop_first(), taker.with_qty((taker.qty - maker.qty) as u64)) {
                None => None,
                Some(o) => Some(
                    WalkOutcome { trades: seq![t] + o.trades, opp: o.opp, post: o.post },
                ),
            }
        } else {
            Some(WalkOutcome { trades: seq![t], opp: opp.drop_first(), post: None })
        }
    }
}

/// Prefix already-emitted trades onto a walk continuation.
pub open spec fn walk_prepend(ts: Seq<Trade>, w: Option<WalkOutcome>) -> Option<WalkOutcome> {
    match w {
        None => None,
        Some(o) => Some(WalkOutcome { trades: ts + o.trades, opp: o.opp, post: o.post }),
    }
}

pub proof fn lemma_walk_prepend_empty(w: Option<WalkOutcome>)
    ensures
        walk_prepend(Seq::empty(), w) == w,
{
    match w {
        None => {},
        Some(o) => {
            assert(Seq::<Trade>::empty() + o.trades =~= o.trades);
        },
    }
}

pub proof fn lemma_walk_prepend_assoc(a: Seq<Trade>, b: Seq<Trade>, w: Option<WalkOutcome>)
    ensures
        walk_prepend(a, walk_prepend(b, w)) == walk_prepend(a + b, w),
{
    match w {
        None => {},
        Some(o) => {
            assert(a + (b + o.trades) =~= (a + b) + o.trades);
        },
    }
}

/// The trade mutations for a sequence of trades, in walk order.
pub open spec fn trade_muts(ts: Seq<Trade>) -> Seq<LedgerMutation> {
    ts.map_values(|t: Trade| LedgerMutation::TradeExecuted(t))
}

/// Full effect of submitting `taker` against books `(buy, sell)` with seq
/// counter `next`: `None` for a rejected MARKET order (books unchanged by
/// the revert), otherwise the new books, the ordered mutation list, and the
/// new counter. The posted residual, if any, is stamped with `next`. Only
/// the taker's own posting is emitted as a mutation; an unfilled maker left
/// by a splitting final trade returns to the opposite book silently.
pub open spec fn spec_submit(buy: Seq<Order>, sell: Seq<Order>, taker: Order, next: u64) -> Option<
    (Seq<Order>, Seq<Order>, Seq<LedgerMutation>, u64),
> {
    let opp = if taker.side == SideT::BUY {
        sell
    } else {
        buy
    };
    let own = if taker.side == SideT::BUY {
        buy
    } else {
        sell
    };
    match walk(opp, taker) {
        None => None,
        Some(o) => {
            match o.post {
                None => {
                    if taker.side == SideT::BUY {
                        Some((own, o.opp, trade_muts(o.trades), next))
                    } else {
                        Some((o.opp, own, trade_muts(o.trades), next))
                    }
                },
                Some(p) => {
                    let sp = p.stamped(next);
                    let next2 = (next + 1) as u64;
                    let (new_own, new_opp, muts) = if p.side == taker.side {
                        (
                            spec_push(p.side, own, sp),
                            o.opp,
                            trade_muts(o.trades) + seq![LedgerMutation::AddedMakerOrder(sp)],
                        )
                    } else {
                        (own, spec_push(p.side, o.opp, sp), trade_muts(o.trades))
                    };
                    if taker.side == SideT::BUY {
                        Some((new_own, new_opp, muts, next2))
                    } else {
                        Some((new_opp, new_own, muts, next2))
                    }
                },
            }
        },
    }
}

/// All time-priority keys in `s` lie strictly below `b`.
pub open spec fn seq_ids_below(s: Seq<Order>, b: u64) -> bool {
    forall|i: int| 0 <= i < s.len() ==> #[trigger] s[i].seq_id < b
}

/// No resting order in `s` carries the request identifier `id`.
pub open spec fn ids_absent(s: Seq<Order>, id: u128) -> bool {
    forall|i: int| 0 <= i < s.len() ==> #[trigger] s[i].id != id
}

/// Exclusive owner of the two books of one instrument and of the
/// monotonically increasing time-priority counter.
pub struct Ledger {
    pub buy_ledger: Book,
    pub sell_ledger: Book,
    pub next_seq_id: u64,
}

impl Default for Ledger {
    /// An empty ledger whose counter starts at 1.
    fn default() -> (r: Ledger)
        ensures
            r.wf(),
            r.buy_ledger@ == Seq::<Order>::empty(),
            r.sell_ledger@ == Seq::<Order>::empty(),
            r.next_seq_id == 1,
    {
        Ledger {
            buy_ledger: Book::new(SideT::BUY),
            sell_ledger: Book::new(SideT::SELL),
            next_seq_id: 1,
        }
    }
}

impl Ledger {
    pub open spec fn wf(self) -> bool {
        &&& self.buy_ledger.wf()
        &&& self.buy_ledger.side == SideT::BUY
        &&& self.sell_ledger.wf()
        &&& self.sell_ledger.side == SideT::SELL
        &&& self.next_seq_id >= 1
        &&& seq_ids_below(self.buy_ledger@, self.next_seq_id)
        &&& seq_ids_below(self.sell_ledger@, self.next_seq_id)
    }

    /// The resting orders whose side is `side`.
    pub open spec fn side_view(self, side: SideT) -> Seq<Order> {
        if side == SideT::BUY {
            self.buy_ledger@
        } else {
            self.sell_ledger@
        }
    }

    /// The resting orders an order of side `side` can match against.
    pub open spec fn opp_view(self, side: SideT) -> Seq<Order> {
        self.side_view(opposite_side(side))
    }

    pub fn buy_ledger_for_test(&self) -> (r: &Book)
        ensures
            r == &self.buy_ledger,
    {
        &self.buy_ledger
    }

    pub fn sell_ledger_for_test(&self) -> (r: &Book)
        ensures
            r == &self.sell_ledger,
    {
        &self.sell_ledger
    }

    /// Whether some resting order (on either side) carries `id`.
    pub fn contains_id(&self, id: u128) -> (r: bool)
        ensures
            r == !(ids_absent(self.buy_ledger@, id) && ids_absent(self.sell_ledger@, id)),
    {
        let mut i: usize = 0;
        while i < self.buy_ledger.orders.len()
            invariant
                0 <= i <= self.buy_ledger@.len(),
                forall|j: int| 0 <= j < i ==> #[trigger] self.buy_ledger@[j].id != id,
            decreases self.buy_ledger@.len() - i,
        {
            if self.buy_ledger.orders[i].id == id {
                return true;
            }
            i += 1;
        }
        let mut k: usize = 0;
        while k < self.sell_ledger.orders.len()
            invariant
                0 <= k <= self.sell_ledger@.len(),
                forall|j: int| 0 <= j < k ==> #[trigger] self.sell_ledger@[j].id != id,
            decreases self.sell_ledger@.len() - k,
        {
            if self.sell_ledger.orders[k].id == id {
                return true;
            }
            k += 1;
        }
        false
    }

    /// Pop the best opposite resting order if the incoming `order` may
    /// execute against it; leave the books untouched otherwise.
    fn get_matched_order(&mut self, order: &Order) -> (r: Option<Order>)
        requires
            old(self).wf(),
            side_valid(order.side),
        ensures
            final(self).wf(),
            final(self).next_seq_id == old(self).next_seq_id,
            final(self).side_view(order.side) == old(self).side_view(order.side),
            final(self).buy_ledger.side == SideT::BUY,
            final(self).sell_ledger.side == SideT::SELL,
            match r {
                Some(m) => {
                    &&& old(self).opp_view(order.side).len() > 0
                    &&& m == old(self).opp_view(order.side)[0]
                    &&& crosses(*order, m)
                    &&& final(self).opp_view(order.side) == old(self).opp_view(
                        order.side,
                    ).drop_first()
                },
                None => {
                    &&& *final(self) == *old(self)
                    &&& (old(self).opp_view(order.side).len() == 0 || !crosses(
                        *order,
                        old(self).opp_view(order.side)[0],
                    ))
                },
            },
    {
        if order.side == SideT::SELL {
            let matched: bool = match self.buy_ledger.peek_best() {
                Some(peek) => order.order_type == OrderTypeT::MARKET || peek.price >= order.price,
                None => false,
            };
            if matched {
                self.buy_ledger.pop_best()
            } else {
                None
            }
        } else {
            let matched: bool = match self.sell_ledger.peek_best() {
                Some(peek) => order.order_type == OrderTypeT::MARKET || peek.price <= order.price,
                None => false,
            };
            if matched {
                self.sell_ledger.pop_best()
            } else {
                None
            }
        }
    }

    /// Stamp `order` with a fresh time-priority key and admit it to the
    /// book of its own side.
    fn stash_order(&mut self, order: Order) -> (r: Order)
        requires
            old(self).wf(),
            old(self).next_seq_id < u64::MAX,
            side_valid(order.side),
            order.order_type != OrderTypeT::MARKET,
            order_type_valid(order.order_type),
            order.qty > 0,
            order.price > 0,
        ensures
            final(self).wf(),
            r == order.stamped(old(self).next_seq_id),
            final(self).next_seq_id == old(self).next_seq_id + 1,
            final(self).side_view(order.side) == spec_push(
                order.side,
                old(self).side_view(order.side),
                r,
            ),
            final(self).side_view(opposite_side(order.side)) == old(self).side_view(
                opposite_side(order.side),
            ),
            final(self).buy_ledger.side == SideT::BUY,
            final(self).sell_ledger.side == SideT::SELL,
    {
        let stamped = Order {
            id: order.id,
            seq_id: self.next_seq_id,
            price: order.price,
            qty: order.qty,
            side: order.side,
            order_type: order.order_type,
        };
        self.next_seq_id = self.next_seq_id + 1;
        if stamped.side == SideT::BUY {
            self.buy_ledger.push(stamped);
            proof {
                lemma_push_seq_ids_below(
                    stamped.side,
                    old(self).buy_ledger@,
                    stamped,
                    self.next_seq_id,
                );
            }
        } else {
            self.sell_ledger.push(stamped);
            proof {
                lemma_push_seq_ids_below(
                    stamped.side,
                    old(self).sell_ledger@,
                    stamped,
                    self.next_seq_id,
                );
            }
        }
        stamped
    }

    /// Submit an order: match it against resting liquidity under price-time
    /// priority, emitting the ordered mutation list, and post any residual
    /// (the unfilled taker on its own side, with its posting emitted; an
    /// unfilled maker back onto the opposite book, silently). A MARKET
    /// order that runs out of liquidity is rejected and the books are
    /// reverted to exactly their prior state.
    pub fn add_order(&mut self, order: Order) -> (r: AddOrderResults)
        requires
            old(self).wf(),
            order.admissible(),
            old(self).next_seq_id < u64::MAX,
            ids_absent(old(self).opp_view(order.side), order.id),
        ensures
            final(self).wf(),
            match r {
                Ok(muts) => spec_submit(
                    old(self).buy_ledger@,
                    old(self).sell_ledger@,
                    order,
                    old(self).next_seq_id,
                ) == Some(
                    (
                        final(self).buy_ledger@,
                        final(self).sell_ledger@,
                        muts@,
                        final(self).next_seq_id,
                    ),
                ),
                Err(e) => {
                    &&& spec_submit(
                        old(self).buy_ledger@,
                        old(self).sell_ledger@,
                        order,
                        old(self).next_seq_id,
                    ) is None
                    &&& e == AddOrderError::NotEnoughOrdersToFillMarketOrder
                    &&& final(self).buy_ledger@ == old(self).buy_ledger@
                    &&& final(self).sell_ledger@ == old(self).sell_ledger@
                    &&& final(self).next_seq_id == old(self).next_seq_id
                },
            },
    {
        let ghost opp0 = old(self).opp_view(order.side);
        let ghost bside = opposite_side(order.side);
        let mut muts: Vec<LedgerMutation> = Vec::new();
        let mut undo: Vec<Order> = Vec::new();
        let ghost mut tr: Seq<Trade> = Seq::empty();
        let mut taker = order;
        proof {
            lemma_walk_prepend_empty(walk(opp0, order));
            assert(muts@ =~= trade_muts(tr));
        }
        loop
            invariant
                self.buy_ledger.wf(),
                self.buy_ledger.side == SideT::BUY,
                self.sell_ledger.wf(),
                self.sell_ledger.side == SideT::SELL,
                self.next_seq_id == old(self).next_seq_id,
                old(self).wf(),
                order.admissible(),
                old(self).next_seq_id < u64::MAX,
                opp0 == old(self).opp_view(order.side),
                bside == opposite_side(order.side),
                seq_ids_below(self.buy_ledger@, self.next_seq_id),
                seq_ids_below(self.sell_ledger@, self.next_seq_id),
                self.side_view(order.side) == old(self).side_view(order.side),
                undo@ + self.opp_view(order.side) == opp0,
                taker.id == order.id,
                taker.side == order.side,
                taker.price == order.price,
                taker.order_type == order.order_type,
                taker.qty > 0,
                muts@ == trade_muts(tr),
                walk(opp0, order) == walk_prepend(tr, walk(self.opp_view(order.side), taker)),
                ids_absent(self.opp_view(order.side), order.id),
            decreases self.opp_view(order.side).len(),
        {
            let ghost opp_cur = self.opp_view(order.side);
            let maybe_maker = self.get_matched_order(&taker);
            match maybe_maker {
                None => {
                    if taker.order_type == OrderTypeT::MARKET {
                        proof {
                            assert(walk(opp_cur, taker) is None);
                            assert(walk(opp0, order) is None);
                        }
                        while undo.len() > 0
                            invariant
                                self.buy_ledger.wf(),
                                self.buy_ledger.side == SideT::BUY,
                                self.sell_ledger.wf(),
                                self.sell_ledger.side == SideT::SELL,
                                self.next_seq_id == old(self).next_seq_id,
                                old(self).wf(),
                                opp0 == old(self).opp_view(order.side),
                                bside == opposite_side(order.side),
                                side_valid(order.side),
                                self.side_view(order.side) == old(self).side_view(order.side),
                                undo@ + self.opp_view(order.side) == opp0,
                            decreases undo.len(),
                        {
                            let ghost k = undo@.len() as int;
                            let mk = match undo.pop() {
                                Some(m) => m,
                                None => {
                                    proof {
                                        assert(false);
                                    }
                                    order
                                },
                            };
                            proof {
                                assert(mk == opp0[k - 1]);
                                assert(sorted(bside, opp0) && entries_ok(bside, opp0)) by {
                                    assert(opp0 == old(self).side_view(bside));
                                };
                                assert forall|j: int|
                                    0 <= j < self.opp_view(order.side).len() implies prior(
                                    bside,
                                    mk,
                                    self.opp_view(order.side)[j],
                                ) by {
                                    assert(self.opp_view(order.side)[j] == opp0[k + j]);
                                    assert(prior(bside, opp0[k - 1], opp0[k + j]));
                                }
                            }
                            if order.side == SideT::BUY {
                                self.sell_ledger.restore_best(mk);
                            } else {
                                self.buy_ledger.restore_best(mk);
                            }
                            proof {
                                assert(undo@ + self.opp_view(order.side) =~= opp0);
                                assert(seq_ids_below(self.buy_ledger@, self.next_seq_id)
                                    && seq_ids_below(self.sell_ledger@, self.next_seq_id)) by {
                                    assert(seq_ids_below(opp0, self.next_seq_id));
                                    assert(forall|j: int|
                                        0 <= j < self.opp_view(order.side).len()
                                            ==> #[trigger] self.opp_view(order.side)[j].seq_id
                                            < self.next_seq_id) by {
                                        assert(forall|j: int|
                                            0 <= j < self.opp_view(order.side).len()
                                                ==> self.opp_view(order.side)[j] == (undo@
                                                + self.opp_view(order.side))[undo@.len() + j]);
                                    };
                                };
                            }
                        }
                        proof {
                            assert(self.opp_view(order.side) =~= opp0);
                        }
                        return Err(AddOrderError::NotEnoughOrdersToFillMarketOrder);
                    }
                    let stamped = self.stash_order(taker);
                    muts.push(LedgerMutation::AddedMakerOrder(stamped));
                    proof {
                        assert(walk(opp_cur, taker) == Some(
                            WalkOutcome {
                                trades: Seq::<Trade>::empty(),
                                opp: opp_cur,
                                post: Some(taker),
                            },
                        ));
                        assert(tr + Seq::<Trade>::empty() =~= tr);
                        assert(walk(opp0, order) == Some(
                            WalkOutcome { trades: tr, opp: opp_cur, post: Some(taker) },
                        ));
                        assert(muts@ =~= trade_muts(tr) + seq![
                            LedgerMutation::AddedMakerOrder(stamped),
                        ]);
                    }
                    return Ok(muts);
                },
                Some(maker) => {
                    undo.push(maker);
                    let (trade, residual) = Trade::execute(taker, maker);
                    muts.push(LedgerMutation::TradeExecuted(trade));
                    proof {
                        assert(undo@ + self.opp_view(order.side) =~= opp0);
                        tr = tr + seq![trade];
                        assert(muts@ =~= trade_muts(tr));
                        lemma_walk_prepend_assoc(
                            tr.drop_last(),
                            seq![trade],
                            walk_step_rest(opp_cur, taker),
                        );
                        assert(tr.drop_last() + seq![trade] =~= tr);
                    }
                    match residual {
                        None => {
                            proof {
                                assert(taker.qty == maker.qty);
                                assert(walk(opp_cur, taker) == Some(
                                    WalkOutcome {
                                        trades: seq![trade],
                                        opp: opp_cur.drop_first(),
                                        post: None,
                                    },
                                ));
                                assert(seq![trade] + Seq::<Trade>::empty() =~= seq![trade]);
                                assert(walk(opp0, order) == Some(
                                    WalkOutcome {
                                        trades: tr,
                                        opp: opp_cur.drop_first(),
                                        post: None,
                                    },
                                )) by {
                                    assert(tr.drop_last() + seq![trade] =~= tr);
                                };
                            }
                            return Ok(muts);
                        },
                        Some(resid) => {
                            if resid.id != order.id {
                                proof {
                                    assert(maker.id != order.id);
                                    assert(taker.qty < maker.qty);
                                    assert(resid == maker.with_qty(
                                        (maker.qty - taker.qty) as u64,
                                    ));
                                    assert(maker.side == bside);
                                    assert(walk(opp_cur, taker) == Some(
                                        WalkOutcome {
                                            trades: seq![trade],
                                            opp: opp_cur.drop_first(),
                                            post: Some(resid),
                                        },
                                    ));
                                    assert(walk(opp0, order) == Some(
                                        WalkOutcome {
                                            trades: tr,
                                            opp: opp_cur.drop_first(),
                                            post: Some(resid),
                                        },
                                    )) by {
                                        assert(tr.drop_last() + seq![trade] =~= tr);
                                    };
                                }
                                // The unfilled maker returns to its book
                                // silently: no mutation is emitted for it.
                                let _stamped = self.stash_order(resid);
                                return Ok(muts);
                            }
                            proof {
                                assert(maker.id != order.id);
                                assert(taker.qty > maker.qty);
                                assert(walk(opp_cur, taker) == walk_prepend(
                                    seq![trade],
                                    walk(
                                        opp_cur.drop_first(),
                                        taker.with_qty((taker.qty - maker.qty) as u64),
                                    ),
                                ));
                                assert(walk(opp0, order) == walk_prepend(
                                    tr,
                                    walk(self.opp_view(order.side), resid),
                                )) by {
                                    assert(tr.drop_last() + seq![trade] =~= tr);
                                    lemma_walk_prepend_assoc(
                                        tr.drop_last(),
                                        seq![trade],
                                        walk(self.opp_view(order.side), resid),
                                    );
                                };
                            }
                            taker = resid;
                        },
                    }
                },
            }
        }
    }
}

/// Helper naming the walk continuation after one executed trade, used only
/// to keep proof text short.
pub open spec fn walk_step_rest(opp: Seq<Order>, taker: Order) -> Option<WalkOutcome> {
    if opp.len() == 0 {
        None
    } else {
        walk(opp.drop_first(), taker.with_qty((taker.qty - opp[0].qty) as u64))
    }
}

/// Pushing an order stamped with the old counter keeps every key below the
/// incremented counter.
pub proof fn lemma_push_seq_ids_below(side: SideT, s: Seq<Order>, o: Order, b: u64)
    requires
        seq_ids_below(s, (b - 1) as u64),
        o.seq_id < b,
        b >= 1,
    ensures
        seq_ids_below(spec_push(side, s, o), b),
{
    crate::book::lemma_insert_pos_bounds(side, s, o);
    let p = crate::book::insert_pos(side, s, o);
    let t = spec_push(side, s, o);
    assert forall|i: int| 0 <= i < t.len() implies #[trigger] t[i].seq_id < b by {
        if i < p {
            assert(t[i] == s[i]);
        } else if i == p {
            assert(t[i] == o);
        } else {
            assert(t[i] == s[i - 1]);
        }
    }
}

} // verus!
