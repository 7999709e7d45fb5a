use crate::book::{insert_pos, lemma_insert_pos_bounds, lemma_total_qty_insert, total_qty, Book};
use crate::ledger::{
    spec_submit, trade_muts, walk, LedgerMutation, WalkOutcome,
};
use crate::order::Order;
use crate::trade::Trade;
use crate::types::{order_type_valid, side_valid, OrderTypeT, SideT};
use vstd::prelude::*;

verus! {

/// Quantity of the posted residual, if one was posted.
pub open spec fn post_qty(p: Option<Order>) -> int {
    match p {
        None => 0,
        Some(o) => o.qty as int,
    }
}

/// Total quantity executed by a sequence of trades.
pub open spec fn trades_qty(ts: Seq<Trade>) -> int
    decreases ts.len(),
{
    if ts.len() == 0 {
        0
    } else {
        ts[0].spec_qty() + trades_qty(ts.drop_first())
    }
}

/// Total quantity executed by the trades of a mutation list.
pub open spec fn traded_qty(ms: Seq<LedgerMutation>) -> int
    decreases ms.len(),
{
    if ms.len() == 0 {
        0
    } else {
        (match ms[0] {
            LedgerMutation::TradeExecuted(t) => t.spec_qty(),
            LedgerMutation::AddedMakerOrder(_) => 0,
        }) + traded_qty(ms.drop_first())
    }
}

/// Total quantity posted as resting makers by a mutation list.
pub open spec fn added_qty(ms: Seq<LedgerMutation>) -> int
    decreases ms.len(),
{
    if ms.len() == 0 {
        0
    } else {
        (match ms[0] {
            LedgerMutation::TradeExecuted(_) => 0,
            LedgerMutation::AddedMakerOrder(o) => o.qty as int,
        }) + added_qty(ms.drop_first())
    }
}

pub proof fn lemma_qty_sums_append(a: Seq<LedgerMutation>, b: Seq<LedgerMutation>)
    ensures
        traded_qty(a + b) == traded_qty(a) + traded_qty(b),
        added_qty(a + b) == added_qty(a) + added_qty(b),
    decreases a.len(),
{
    if a.len() == 0 {
        assert(a + b =~= b);
    } else {
        assert((a + b).drop_first() =~= a.drop_first() + b);
        assert((a + b)[0] == a[0]);
        lemma_qty_sums_append(a.drop_first(), b);
    }
}

pub proof fn lemma_qty_sums_trade_muts(ts: Seq<Trade>)
    ensures
        traded_qty(trade_muts(ts)) == trades_qty(ts),
        added_qty(trade_muts(ts)) == 0,
    decreases ts.len(),
{
    if ts.len() == 0 {
    } else {
        assert(trade_muts(ts).drop_first() =~= trade_muts(ts.drop_first()));
        assert(trade_muts(ts)[0] == LedgerMutation::TradeExecuted(ts[0]));
        lemma_qty_sums_trade_muts(ts.drop_first());
    }
}

pub proof fn lemma_qty_sums_added_singleton(o: Order)
    ensures
        traded_qty(seq![LedgerMutation::AddedMakerOrder(o)]) == 0,
        added_qty(seq![LedgerMutation::AddedMakerOrder(o)]) == o.qty,
{
    let s = seq![LedgerMutation::AddedMakerOrder(o)];
    assert(s.drop_first() =~= Seq::<LedgerMutation>::empty());
    assert(traded_qty(Seq::<LedgerMutation>::empty()) == 0);
    assert(added_qty(Seq::<LedgerMutation>::empty()) == 0);
}

pub proof fn lemma_trades_qty_prepend(t: Trade, ts: Seq<Trade>)
    ensures
        trades_qty(seq![t] + ts) == t.spec_qty() + trades_qty(ts),
{
    assert((seq![t] + ts)[0] == t);
    assert((seq![t] + ts).drop_first() =~= ts);
}

/// Conservation over one matching walk: the opposite book's quantity plus
/// the taker's quantity is preserved as the post-walk opposite quantity,
/// twice the traded quantity, and the residual's quantity.
pub proof fn lemma_walk_conservation(opp: Seq<Order>, taker: Order)
    requires
        taker.qty > 0,
    ensures
        walk(opp, taker) matches Some(o) ==> total_qty(opp) + taker.qty == total_qty(o.opp) + 2
            * trades_qty(o.trades) + post_qty(o.post),
    decreases opp.len(),
{
    if walk(opp, taker) is Some {
        let o = walk(opp, taker)->Some_0;
        if opp.len() == 0 || !crosses_l(taker, opp) {
            assert(o.trades =~= Seq::<Trade>::empty());
        } else {
            let maker = opp[0];
            let t = Trade { taker, maker };
            assert(total_qty(opp) == maker.qty + total_qty(opp.drop_first()));
            if taker.qty < maker.qty {
                lemma_trades_qty_prepend(t, Seq::empty());
                assert(trades_qty(o.trades) == t.spec_qty());
            } else if taker.qty > maker.qty {
                let taker2 = taker.with_qty((taker.qty - maker.qty) as u64);
                lemma_walk_conservation(opp.drop_first(), taker2);
                let o2 = walk(opp.drop_first(), taker2)->Some_0;
                lemma_trades_qty_prepend(t, o2.trades);
            } else {
                lemma_trades_qty_prepend(t, Seq::empty());
                assert(trades_qty(o.trades) == t.spec_qty());
            }
        }
    }
}

/// Shorthand used by the walk lemmas for "the walk's first step matches".
pub open spec fn crosses_l(taker: Order, opp: Seq<Order>) -> bool {
    crate::ledger::crosses(taker, opp[0])
}

/// Each trade of a walk executes against the resting orders in book order:
/// the k-th trade embeds the k-th-best resting maker verbatim, and its
/// derived price is that maker's price. (Price improvement for the taker:
/// trades execute at the resting quote.)
pub proof fn lemma_walk_trades_in_book_order(opp: Seq<Order>, taker: Order)
    ensures
        walk(opp, taker) matches Some(o) ==> {
            &&& o.trades.len() <= opp.len()
            &&& forall|k: int|
                0 <= k < o.trades.len() ==> #[trigger] o.trades[k].maker == opp[k]
                    && o.trades[k].spec_price() == opp[k].price
        },
    decreases opp.len(),
{
    if walk(opp, taker) is Some {
        let o = walk(opp, taker)->Some_0;
        if opp.len() == 0 || !crosses_l(taker, opp) {
        } else {
            let maker = opp[0];
            let t = Trade { taker, maker };
            if taker.qty > maker.qty {
                let taker2 = taker.with_qty((taker.qty - maker.qty) as u64);
                lemma_walk_trades_in_book_order(opp.drop_first(), taker2);
                let o2 = walk(opp.drop_first(), taker2)->Some_0;
                assert forall|k: int| 0 <= k < o.trades.len() implies #[trigger] o.trades[k].maker
                    == opp[k] && o.trades[k].spec_price() == opp[k].price by {
                    if k == 0 {
                        assert(o.trades[0] == t);
                    } else {
                        assert(o.trades[k] == o2.trades[k - 1]);
                        assert(opp.drop_first()[k - 1] == opp[k]);
                    }
                }
            } else {
                assert(o.trades[0] == t);
            }
        }
    }
}

/// Limit bound over one walk: a LIMIT (or LIMIT_MAKER) taker only ever
/// trades at prices within its limit, `<=` for BUY and `>=` for SELL.
pub proof fn lemma_walk_limit_bound(opp: Seq<Order>, taker: Order)
    requires
        taker.order_type != OrderTypeT::MARKET,
        side_valid(taker.side),
    ensures
        walk(opp, taker) matches Some(o) ==> forall|k: int|
            0 <= k < o.trades.len() ==> {
                &&& (taker.side == SideT::BUY ==> #[trigger] o.trades[k].spec_price()
                    <= taker.price)
                &&& (taker.side == SideT::SELL ==> o.trades[k].spec_price() >= taker.price)
            },
    decreases opp.len(),
{
    if walk(opp, taker) is Some {
        let o = walk(opp, taker)->Some_0;
        if opp.len() == 0 || !crosses_l(taker, opp) {
        } else {
            let maker = opp[0];
            let t = Trade { taker, maker };
            if taker.qty > maker.qty {
                let taker2 = taker.with_qty((taker.qty - maker.qty) as u64);
                lemma_walk_limit_bound(opp.drop_first(), taker2);
                let o2 = walk(opp.drop_first(), taker2)->Some_0;
                assert forall|k: int| 0 <= k < o.trades.len() implies {
                    &&& (taker.side == SideT::BUY ==> #[trigger] o.trades[k].spec_price()
                        <= taker.price)
                    &&& (taker.side == SideT::SELL ==> o.trades[k].spec_price() >= taker.price)
                } by {
                    if k == 0 {
                        assert(o.trades[0] == t);
                    } else {
                        assert(o.trades[k] == o2.trades[k - 1]);
                    }
                }
            } else {
                assert(o.trades[0] == t);
            }
        }
    }
}

/// Every resting order of `opp` sits on the side opposite `side`, as the
/// ledger's book invariant guarantees of the book a taker matches against.
pub open spec fn opposite_entries(opp: Seq<Order>, side: SideT) -> bool {
    forall|i: int| 0 <= i < opp.len() ==> #[trigger] opp[i].side != side
}

/// Taker split over one walk: the traded quantity, plus the residual's
/// quantity when the residual is the unfilled taker itself (it alone keeps
/// the taker's side), equals the submitted quantity. A residual on the
/// other side is an unfilled maker, in which case the taker traded in
/// full; a residual on the taker's side carries the taker's id, price and
/// non-MARKET order type.
pub proof fn lemma_walk_taker_split(opp: Seq<Order>, taker: Order)
    requires
        taker.qty > 0,
        opposite_entries(opp, taker.side),
    ensures
        walk(opp, taker) matches Some(o) ==> {
            &&& trades_qty(o.trades) + (match o.post {
                Some(p) => if p.side == taker.side {
                    p.qty as int
                } else {
                    0
                },
                None => 0,
            }) == taker.qty
            &&& (match o.post {
                Some(p) => p.side == taker.side ==> p.id == taker.id && p.price == taker.price
                    && p.order_type == taker.order_type && p.order_type != OrderTypeT::MARKET
                    && p.qty > 0,
                None => true,
            })
        },
    decreases opp.len(),
{
    if walk(opp, taker) is Some {
        let o = walk(opp, taker)->Some_0;
        if opp.len() == 0 || !crosses_l(taker, opp) {
            assert(o.trades =~= Seq::<Trade>::empty());
        } else {
            let maker = opp[0];
            let t = Trade { taker, maker };
            if taker.qty < maker.qty {
                lemma_trades_qty_prepend(t, Seq::empty());
                assert(trades_qty(o.trades) == t.spec_qty());
                assert(maker.side != taker.side);
            } else if taker.qty > maker.qty {
                let taker2 = taker.with_qty((taker.qty - maker.qty) as u64);
                assert(opposite_entries(opp.drop_first(), taker2.side)) by {
                    assert(forall|j: int|
                        0 <= j < opp.drop_first().len() ==> opp.drop_first()[j] == opp[j + 1]);
                };
                lemma_walk_taker_split(opp.drop_first(), taker2);
                let o2 = walk(opp.drop_first(), taker2)->Some_0;
                lemma_trades_qty_prepend(t, o2.trades);
            } else {
                lemma_trades_qty_prepend(t, Seq::empty());
                assert(trades_qty(o.trades) == t.spec_qty());
            }
        }
    }
}

/// When a walk aborts: exactly when the taker is a MARKET order asking for
/// more quantity than the whole opposite book holds.
pub proof fn lemma_walk_rejection(opp: Seq<Order>, taker: Order)
    requires
        taker.qty > 0,
    ensures
        walk(opp, taker) is None <==> (taker.order_type == OrderTypeT::MARKET && total_qty(opp)
            < taker.qty),
    decreases opp.len(),
{
    if opp.len() == 0 || !crosses_l(taker, opp) {
    } else {
        let maker = opp[0];
        assert(total_qty(opp) == maker.qty + total_qty(opp.drop_first()));
        if taker.qty > maker.qty {
            let taker2 = taker.with_qty((taker.qty - maker.qty) as u64);
            lemma_walk_rejection(opp.drop_first(), taker2);
        } else {
            lemma_total_qty_nonneg(opp.drop_first());
        }
    }
}

pub proof fn lemma_total_qty_nonneg(s: Seq<Order>)
    ensures
        total_qty(s) >= 0,
    decreases s.len(),
{
    if s.len() > 0 {
        lemma_total_qty_nonneg(s.drop_first());
    }
}

/// Success is owed exactly outside the one rejection: a submission is
/// rejected if and only if it is a MARKET order whose quantity exceeds the
/// total resting quantity of the opposite book; every other admissible
/// submission returns its mutation list.
pub proof fn lemma_rejection_criterion(buy: Seq<Order>, sell: Seq<Order>, taker: Order, next: u64)
    requires
        taker.qty > 0,
    ensures
        spec_submit(buy, sell, taker, next) is None <==> (taker.order_type == OrderTypeT::MARKET
            && total_qty(
            if taker.side == SideT::BUY {
                sell
            } else {
                buy
            },
        ) < taker.qty),
{
    let opp = if taker.side == SideT::BUY {
        sell
    } else {
        buy
    };
    lemma_walk_rejection(opp, taker);
}

/// Price-time priority: among two orders resting on one book, the one that
/// `peek` prefers (it stands earlier in best-first order) either strictly
/// beats the other's price by the side's convention, or ties the price and
/// carries the smaller (earlier) time-priority key.
pub proof fn lemma_price_time_priority(b: Book, i: int, j: int)
    requires
        b.wf(),
        0 <= i < j < b@.len(),
    ensures
        b.side == SideT::BUY ==> (b@[i].price > b@[j].price || (b@[i].price == b@[j].price
            && b@[i].seq_id < b@[j].seq_id)),
        b.side == SideT::SELL ==> (b@[i].price < b@[j].price || (b@[i].price == b@[j].price
            && b@[i].seq_id < b@[j].seq_id)),
{
    assert(crate::book::prior(b.side, b@[i], b@[j]));
}

/// Conservation across one successful submission: the total resting
/// quantity over both books afterwards equals the prior total, plus the
/// submitted quantity, minus twice the traded quantity.
pub proof fn lemma_conservation(buy: Seq<Order>, sell: Seq<Order>, taker: Order, next: u64)
    requires
        taker.qty > 0,
    ensures
        spec_submit(buy, sell, taker, next) matches Some((b2, s2, muts, n2)) ==> total_qty(b2)
            + total_qty(s2) == total_qty(buy) + total_qty(sell) + taker.qty - 2 * traded_qty(muts),
{
    if spec_submit(buy, sell, taker, next) is Some {
        let opp = if taker.side == SideT::BUY {
            sell
        } else {
            buy
        };
        let own = if taker.side == SideT::BUY {
            buy
        } else {
            sell
        };
        lemma_walk_conservation(opp, taker);
        let o = walk(opp, taker)->Some_0;
        lemma_qty_sums_trade_muts(o.trades);
        match o.post {
            None => {},
            Some(p) => {
                let sp = p.stamped(next);
                if p.side == taker.side {
                    lemma_qty_sums_append(
                        trade_muts(o.trades),
                        seq![LedgerMutation::AddedMakerOrder(sp)],
                    );
                    lemma_qty_sums_added_singleton(sp);
                    lemma_insert_pos_bounds(p.side, own, sp);
                    lemma_total_qty_insert(own, insert_pos(p.side, own, sp), sp);
                } else {
                    lemma_insert_pos_bounds(p.side, o.opp, sp);
                    lemma_total_qty_insert(o.opp, insert_pos(p.side, o.opp, sp), sp);
                }
            },
        }
    }
}

/// Price improvement across one successful submission: every trade mutation
/// embeds its maker verbatim and its derived price is that maker's price;
/// moreover the k-th trade's maker is the k-th-best resting order of the
/// opposite book at submission time.
pub proof fn lemma_price_improvement(buy: Seq<Order>, sell: Seq<Order>, taker: Order, next: u64)
    ensures
        spec_submit(buy, sell, taker, next) matches Some((b2, s2, muts, n2)) ==> {
            let opp = if taker.side == SideT::BUY {
                sell
            } else {
                buy
            };
            forall|k: int|
                0 <= k < muts.len() ==> (#[trigger] muts[k] matches
                    LedgerMutation::TradeExecuted(t) ==> t.spec_price() == t.maker.price && k
                    < opp.len() && t.maker == opp[k])
        },
{
    if spec_submit(buy, sell, taker, next) is Some {
        let opp = if taker.side == SideT::BUY {
            sell
        } else {
            buy
        };
        lemma_walk_trades_in_book_order(opp, taker);
        let o = walk(opp, taker)->Some_0;
        let base = trade_muts(o.trades);
        let muts = spec_submit(buy, sell, taker, next)->Some_0.2;
        assert forall|k: int|
            0 <= k < muts.len() implies (#[trigger] muts[k] matches LedgerMutation::TradeExecuted(
            t,
        ) ==> t.spec_price() == t.maker.price && k < opp.len() && t.maker == opp[k]) by {
            if k < base.len() {
                assert(muts[k] == base[k]);
                assert(base[k] == LedgerMutation::TradeExecuted(o.trades[k]));
            } else {
                assert(muts[k] is AddedMakerOrder);
            }
        }
    }
}

/// Limit bound honored across one successful submission: every trade of a
/// LIMIT or LIMIT_MAKER taker is priced within the taker's limit, `<=` for
/// a BUY taker and `>=` for a SELL taker.
pub proof fn lemma_limit_bound(buy: Seq<Order>, sell: Seq<Order>, taker: Order, next: u64)
    requires
        taker.order_type != OrderTypeT::MARKET,
        side_valid(taker.side),
    ensures
        spec_submit(buy, sell, taker, next) matches Some((b2, s2, muts, n2)) ==> forall|k: int|
            0 <= k < muts.len() ==> (#[trigger] muts[k] matches LedgerMutation::TradeExecuted(t)
                ==> {
                &&& (taker.side == SideT::BUY ==> t.spec_price() <= taker.price)
                &&& (taker.side == SideT::SELL ==> t.spec_price() >= taker.price)
            }),
{
    if spec_submit(buy, sell, taker, next) is Some {
        let opp = if taker.side == SideT::BUY {
            sell
        } else {
            buy
        };
        lemma_walk_limit_bound(opp, taker);
        let o = walk(opp, taker)->Some_0;
        let base = trade_muts(o.trades);
        let muts = spec_submit(buy, sell, taker, next)->Some_0.2;
        assert forall|k: int|
            0 <= k < muts.len() implies (#[trigger] muts[k] matches LedgerMutation::TradeExecuted(
            t,
        ) ==> {
            &&& (taker.side == SideT::BUY ==> t.spec_price() <= taker.price)
            &&& (taker.side == SideT::SELL ==> t.spec_price() >= taker.price)
        }) by {
            if k < base.len() {
                assert(muts[k] == base[k]);
                assert(base[k] == LedgerMutation::TradeExecuted(o.trades[k]));
            } else {
                assert(muts[k] is AddedMakerOrder);
            }
        }
    }
}

/// Mutation sum: across one successful submission, the sum of the traded
/// quantities plus the quantity of the `AddedMakerOrder` (if one was
/// emitted) equals the submitted quantity.
pub proof fn lemma_mutation_sum(buy: Seq<Order>, sell: Seq<Order>, taker: Order, next: u64)
    requires
        taker.qty > 0,
        opposite_entries(
            if taker.side == SideT::BUY {
                sell
            } else {
                buy
            },
            taker.side,
        ),
    ensures
        spec_submit(buy, sell, taker, next) matches Some((b2, s2, muts, n2)) ==> traded_qty(muts)
            + added_qty(muts) == taker.qty,
{
    if spec_submit(buy, sell, taker, next) is Some {
        let opp = if taker.side == SideT::BUY {
            sell
        } else {
            buy
        };
        lemma_walk_taker_split(opp, taker);
        let o = walk(opp, taker)->Some_0;
        let base = trade_muts(o.trades);
        lemma_qty_sums_trade_muts(o.trades);
        match o.post {
            None => {},
            Some(p) => {
                let sp = p.stamped(next);
                if p.side == taker.side {
                    lemma_qty_sums_append(base, seq![LedgerMutation::AddedMakerOrder(sp)]);
                    lemma_qty_sums_added_singleton(sp);
                }
            },
        }
    }
}

/// Shape of the mutation list: everything but the last element is a trade,
/// and an `AddedMakerOrder`, when present, stands last and is the unfilled
/// taker's own posting -- the taker's id, price, side and non-MARKET order
/// type, stamped with the submission's counter value.
pub proof fn lemma_mutation_list_shape(buy: Seq<Order>, sell: Seq<Order>, taker: Order, next: u64)
    requires
        taker.qty > 0,
        opposite_entries(
            if taker.side == SideT::BUY {
                sell
            } else {
                buy
            },
            taker.side,
        ),
    ensures
        spec_submit(buy, sell, taker, next) matches Some((b2, s2, muts, n2)) ==> forall|k: int|
            0 <= k < muts.len() ==> (#[trigger] muts[k] matches LedgerMutation::AddedMakerOrder(a)
                ==> k == muts.len() - 1 && a.id == taker.id && a.price == taker.price && a.side
                == taker.side && a.order_type == taker.order_type && a.order_type
                != OrderTypeT::MARKET && a.seq_id == next),
{
    if spec_submit(buy, sell, taker, next) is Some {
        let opp = if taker.side == SideT::BUY {
            sell
        } else {
            buy
        };
        lemma_walk_taker_split(opp, taker);
        let o = walk(opp, taker)->Some_0;
        let base = trade_muts(o.trades);
        let muts = spec_submit(buy, sell, taker, next)->Some_0.2;
        assert forall|k: int|
            0 <= k < muts.len() implies (#[trigger] muts[k] matches
        LedgerMutation::AddedMakerOrder(a) ==> k == muts.len() - 1 && a.id == taker.id && a.price
            == taker.price && a.side == taker.side && a.order_type == taker.order_type
            && a.order_type != OrderTypeT::MARKET && a.seq_id == next) by {
            if k < base.len() {
                assert(muts[k] == base[k]);
                assert(base[k] == LedgerMutation::TradeExecuted(o.trades[k]));
            }
        }
    }
}

} // verus!
