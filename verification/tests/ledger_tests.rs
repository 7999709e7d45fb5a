use tradeengine::{
    AddOrderError, AddOrderResults, Ledger, LedgerMutation, Order, OrderTypeT, SideT, Trade,
};

fn to_order_id(order_id: u64) -> u128 {
    order_id as u128
}

fn from_order_id(order_id: u128) -> u64 {
    assert!(order_id <= u64::MAX as u128);
    order_id as u64
}

#[derive(Clone)]
struct DummyOrder {
    id: u128,
    price: u64,
    qty: u64,
    side: SideT,
    order_type: OrderTypeT,
}

impl DummyOrder {
    pub fn new(id: u64, price: u64, qty: u64, side: SideT, order_type: OrderTypeT) -> DummyOrder {
        DummyOrder { id: to_order_id(id), price, qty, side, order_type }
    }

    pub fn from_order(order: &Order) -> DummyOrder {
        DummyOrder::new(
            from_order_id(*order.id()),
            *order.price(),
            *order.qty(),
            *order.side(),
            *order.order_type(),
        )
    }

    pub fn to_order(&self) -> Order {
        Order::new(self.id, self.price, self.qty, self.side, self.order_type)
    }

    pub fn verify(&self, order: &Order, ignore_qty: bool) {
        assert_eq!(*order.id(), self.id, "Order ids do not match.");
        assert_eq!(*order.price(), self.price, "Order prices dont match.");
        assert_eq!(*order.side(), self.side, "Order sides do not match.");
        assert_eq!(*order.order_type(), self.order_type, "Order types do not match.");
        if !ignore_qty {
            assert_eq!(*order.qty(), self.qty);
        }
    }

    pub fn price(&self) -> &u64 {
        &self.price
    }

    pub fn qty(&self) -> &u64 {
        &self.qty
    }
}

fn is_trade(m: &LedgerMutation) -> bool {
    matches!(m, LedgerMutation::TradeExecuted(_))
}

fn as_trade(m: &LedgerMutation) -> &Trade {
    match m {
        LedgerMutation::TradeExecuted(trade) => trade,
        _ => panic!("Not a trade."),
    }
}

fn is_add_maker(m: &LedgerMutation) -> bool {
    matches!(m, LedgerMutation::AddedMakerOrder(_))
}

fn as_add_maker(m: &LedgerMutation) -> &Order {
    match m {
        LedgerMutation::AddedMakerOrder(order) => order,
        _ => panic!("Not an order."),
    }
}

fn verify_trade(
    trade: &Trade,
    taker: &DummyOrder,
    maker: &DummyOrder,
    trade_price: &u64,
    trade_qty: &u64,
) {
    let trade_taker = trade.taker();
    let trade_maker = trade.maker();
    taker.verify(trade_taker, true);
    maker.verify(trade_maker, true);
    assert_eq!(*trade.qty(), *trade_qty, "Trade qty does not match.");
    assert_eq!(*trade.price(), *trade_price, "Trade price does not match the input param.");
    assert_eq!(*maker.price(), *trade_price, "Input param price is expected to be maker price.");
    assert!(
        *taker.qty() == *trade_qty || *maker.qty() == *trade_qty,
        "Expected one of the orders to be of trade_qty {}",
        *trade_qty
    );
}

fn verify_mutations(results: &AddOrderResults, expected_mutations: &Vec<LedgerMutation>) {
    assert!(results.is_ok());
    let mutations = results.as_ref().unwrap();
    assert_eq!(mutations.len(), expected_mutations.len());

    for i in 0..expected_mutations.len() {
        let real_mutation = &mutations[i];
        let expected_mutation = &expected_mutations[i];
        if is_add_maker(expected_mutation) {
            assert!(is_add_maker(real_mutation));
            let expected_order = DummyOrder::from_order(as_add_maker(expected_mutation));
            expected_order.verify(as_add_maker(real_mutation), false);
        } else if is_trade(expected_mutation) {
            assert!(is_trade(real_mutation));
            let expected_trade = as_trade(expected_mutation);
            verify_trade(
                as_trade(real_mutation),
                &DummyOrder::from_order(expected_trade.taker()),
                &DummyOrder::from_order(expected_trade.maker()),
                expected_trade.price(),
                expected_trade.qty(),
            );
        }
    }
}

#[test]
fn simple_add_order() {
    let mut ledger = Ledger::default();
    let dummy_order = DummyOrder::new(1234567890, 999, 111, SideT::BUY, OrderTypeT::LIMIT);
    verify_mutations(
        &ledger.add_order(dummy_order.to_order()),
        &vec![LedgerMutation::AddedMakerOrder(dummy_order.to_order())],
    );
    let buy_ledger = ledger.buy_ledger_for_test();
    let sell_ledger = ledger.sell_ledger_for_test();
    assert_eq!(buy_ledger.len(), 1);
    assert_eq!(sell_ledger.len(), 0);
    if let Some(ref order) = buy_ledger.peek_best() {
        dummy_order.verify(order, false);
    } else {
        panic!("Expected valid item in ledger.");
    }
}

#[test]
fn simple_full_trade() {
    let mut ledger = Ledger::default();
    let dummy_buy = DummyOrder::new(1234567890, 10, 8, SideT::BUY, OrderTypeT::LIMIT);
    let dummy_sell = DummyOrder::new(987654321, 10, 8, SideT::SELL, OrderTypeT::LIMIT);

    verify_mutations(
        &ledger.add_order(dummy_buy.to_order()),
        &vec![LedgerMutation::AddedMakerOrder(dummy_buy.to_order())],
    );
    verify_mutations(
        &ledger.add_order(dummy_sell.to_order()),
        &vec![LedgerMutation::TradeExecuted(Trade::new(
            dummy_sell.to_order(),
            dummy_buy.to_order(),
        ))],
    );
    assert_eq!(ledger.buy_ledger_for_test().len(), 0);
    assert_eq!(ledger.sell_ledger_for_test().len(), 0);
}

#[test]
fn market_order_fails_if_empty() {
    let mut ledger = Ledger::default();
    let dummy_buy = DummyOrder::new(1234567890, 10, 8, SideT::BUY, OrderTypeT::MARKET);
    let dummy_sell = DummyOrder::new(987654321, 10, 8, SideT::BUY, OrderTypeT::MARKET);
    {
        let error = ledger.add_order(dummy_buy.to_order()).err().unwrap();
        assert_eq!(error, AddOrderError::NotEnoughOrdersToFillMarketOrder);
    }
    {
        let error = ledger.add_order(dummy_sell.to_order()).err().unwrap();
        assert_eq!(error, AddOrderError::NotEnoughOrdersToFillMarketOrder);
    }
    assert_eq!(ledger.buy_ledger_for_test().len(), 0);
    assert_eq!(ledger.sell_ledger_for_test().len(), 0);
}

#[test]
fn buy_limits_inserted_backwards_traded_in_order() {
    let mut ledger = Ledger::default();
    let dummy_buy1 = DummyOrder::new(99, 14, 1, SideT::BUY, OrderTypeT::LIMIT);
    let dummy_buy2 = DummyOrder::new(88, 13, 2, SideT::BUY, OrderTypeT::LIMIT);
    let dummy_buy3 = DummyOrder::new(77, 12, 3, SideT::BUY, OrderTypeT::LIMIT);
    let dummy_buy4 = DummyOrder::new(66, 11, 4, SideT::BUY, OrderTypeT::LIMIT);

    verify_mutations(
        &ledger.add_order(dummy_buy1.to_order()),
        &vec![LedgerMutation::AddedMakerOrder(dummy_buy1.to_order())],
    );
    verify_mutations(
        &ledger.add_order(dummy_buy2.to_order()),
        &vec![LedgerMutation::AddedMakerOrder(dummy_buy2.to_order())],
    );
    verify_mutations(
        &ledger.add_order(dummy_buy3.to_order()),
        &vec![LedgerMutation::AddedMakerOrder(dummy_buy3.to_order())],
    );
    verify_mutations(
        &ledger.add_order(dummy_buy4.to_order()),
        &vec![LedgerMutation::AddedMakerOrder(dummy_buy4.to_order())],
    );

    let dummy_sell = DummyOrder::new(5, 1, 10, SideT::SELL, OrderTypeT::LIMIT);
    verify_mutations(
        &ledger.add_order(dummy_sell.to_order()),
        &vec![
            LedgerMutation::TradeExecuted(Trade::new(dummy_sell.to_order(), dummy_buy1.to_order())),
            LedgerMutation::TradeExecuted(Trade::new(dummy_sell.to_order(), dummy_buy2.to_order())),
            LedgerMutation::TradeExecuted(Trade::new(dummy_sell.to_order(), dummy_buy3.to_order())),
            LedgerMutation::TradeExecuted(Trade::new(dummy_sell.to_order(), dummy_buy4.to_order())),
        ],
    );
    assert_eq!(ledger.buy_ledger_for_test().len(), 0);
    assert_eq!(ledger.sell_ledger_for_test().len(), 0);
}

#[test]
fn buy_limits_inserted_forwards_traded_in_order() {
    let mut ledger = Ledger::default();
    let dummy_buy1 = DummyOrder::new(99, 14, 1, SideT::BUY, OrderTypeT::LIMIT);
    let dummy_buy2 = DummyOrder::new(88, 13, 2, SideT::BUY, OrderTypeT::LIMIT);
    let dummy_buy3 = DummyOrder::new(77, 12, 3, SideT::BUY, OrderTypeT::LIMIT);
    let dummy_buy4 = DummyOrder::new(66, 11, 4, SideT::BUY, OrderTypeT::LIMIT);

    // Notice they are inverted.
    verify_mutations(
        &ledger.add_order(dummy_buy4.to_order()),
        &vec![LedgerMutation::AddedMakerOrder(dummy_buy4.to_order())],
    );
    verify_mutations(
        &ledger.add_order(dummy_buy3.to_order()),
        &vec![LedgerMutation::AddedMakerOrder(dummy_buy3.to_order())],
    );
    verify_mutations(
        &ledger.add_order(dummy_buy2.to_order()),
        &vec![LedgerMutation::AddedMakerOrder(dummy_buy2.to_order())],
    );
    verify_mutations(
        &ledger.add_order(dummy_buy1.to_order()),
        &vec![LedgerMutation::AddedMakerOrder(dummy_buy1.to_order())],
    );

    let dummy_sell = DummyOrder::new(5, 1, 10, SideT::SELL, OrderTypeT::LIMIT);
    verify_mutations(
        &ledger.add_order(dummy_sell.to_order()),
        &vec![
            LedgerMutation::TradeExecuted(Trade::new(dummy_sell.to_order(), dummy_buy1.to_order())),
            LedgerMutation::TradeExecuted(Trade::new(dummy_sell.to_order(), dummy_buy2.to_order())),
            LedgerMutation::TradeExecuted(Trade::new(dummy_sell.to_order(), dummy_buy3.to_order())),
            LedgerMutation::TradeExecuted(Trade::new(dummy_sell.to_order(), dummy_buy4.to_order())),
        ],
    );
    assert_eq!(ledger.buy_ledger_for_test().len(), 0);
    assert_eq!(ledger.sell_ledger_for_test().len(), 0);
}

#[test]
fn buy_limits_inserted_random_traded_in_order() {
    let mut ledger = Ledger::default();
    let dummy_buy1 = DummyOrder::new(99, 14, 1, SideT::BUY, OrderTypeT::LIMIT);
    let dummy_buy2 = DummyOrder::new(88, 13, 2, SideT::BUY, OrderTypeT::LIMIT);
    let dummy_buy3 = DummyOrder::new(77, 12, 3, SideT::BUY, OrderTypeT::LIMIT);
    let dummy_buy4 = DummyOrder::new(66, 11, 4, SideT::BUY, OrderTypeT::LIMIT);

    // Notice they are random.
    verify_mutations(
        &ledger.add_order(dummy_buy3.to_order()),
        &vec![LedgerMutation::AddedMakerOrder(dummy_buy3.to_order())],
    );
    verify_mutations(
        &ledger.add_order(dummy_buy1.to_order()),
        &vec![LedgerMutation::AddedMakerOrder(dummy_buy1.to_order())],
    );
    verify_mutations(
        &ledger.add_order(dummy_buy2.to_order()),
        &vec![LedgerMutation::AddedMakerOrder(dummy_buy2.to_order())],
    );
    verify_mutations(
        &ledger.add_order(dummy_buy4.to_order()),
        &vec![LedgerMutation::AddedMakerOrder(dummy_buy4.to_order())],
    );

    let dummy_sell = DummyOrder::new(5, 1, 10, SideT::SELL, OrderTypeT::LIMIT);
    verify_mutations(
        &ledger.add_order(dummy_sell.to_order()),
        &vec![
            LedgerMutation::TradeExecuted(Trade::new(dummy_sell.to_order(), dummy_buy1.to_order())),
            LedgerMutation::TradeExecuted(Trade::new(dummy_sell.to_order(), dummy_buy2.to_order())),
            LedgerMutation::TradeExecuted(Trade::new(dummy_sell.to_order(), dummy_buy3.to_order())),
            LedgerMutation::TradeExecuted(Trade::new(dummy_sell.to_order(), dummy_buy4.to_order())),
        ],
    );
    assert_eq!(ledger.buy_ledger_for_test().len(), 0);
    assert_eq!(ledger.sell_ledger_for_test().len(), 0);
}

#[test]
fn sell_limits_inserted_backwards_traded_in_order() {
    let mut ledger = Ledger::default();
    let dummy_sell1 = DummyOrder::new(99, 14, 1, SideT::SELL, OrderTypeT::LIMIT);
    let dummy_sell2 = DummyOrder::new(88, 13, 2, SideT::SELL, OrderTypeT::LIMIT);
    let dummy_sell3 = DummyOrder::new(77, 12, 3, SideT::SELL, OrderTypeT::LIMIT);
    let dummy_sell4 = DummyOrder::new(66, 11, 4, SideT::SELL, OrderTypeT::LIMIT);

    verify_mutations(
        &ledger.add_order(dummy_sell1.to_order()),
        &vec![LedgerMutation::AddedMakerOrder(dummy_sell1.to_order())],
    );
    verify_mutations(
        &ledger.add_order(dummy_sell2.to_order()),
        &vec![LedgerMutation::AddedMakerOrder(dummy_sell2.to_order())],
    );
    verify_mutations(
        &ledger.add_order(dummy_sell3.to_order()),
        &vec![LedgerMutation::AddedMakerOrder(dummy_sell3.to_order())],
    );
    verify_mutations(
        &ledger.add_order(dummy_sell4.to_order()),
        &vec![LedgerMutation::AddedMakerOrder(dummy_sell4.to_order())],
    );

    let dummy_buy = DummyOrder::new(5, 100, 10, SideT::BUY, OrderTypeT::LIMIT);
    verify_mutations(
        &ledger.add_order(dummy_buy.to_order()),
        &vec![
            LedgerMutation::TradeExecuted(Trade::new(dummy_buy.to_order(), dummy_sell4.to_order())),
            LedgerMutation::TradeExecuted(Trade::new(dummy_buy.to_order(), dummy_sell3.to_order())),
            LedgerMutation::TradeExecuted(Trade::new(dummy_buy.to_order(), dummy_sell2.to_order())),
            LedgerMutation::TradeExecuted(Trade::new(dummy_buy.to_order(), dummy_sell1.to_order())),
        ],
    );
    assert_eq!(ledger.buy_ledger_for_test().len(), 0);
    assert_eq!(ledger.sell_ledger_for_test().len(), 0);
}

#[test]
fn sell_limits_inserted_forwards_traded_in_order() {
    let mut ledger = Ledger::default();
    let dummy_sell1 = DummyOrder::new(99, 14, 1, SideT::SELL, OrderTypeT::LIMIT);
    let dummy_sell2 = DummyOrder::new(88, 13, 2, SideT::SELL, OrderTypeT::LIMIT);
    let dummy_sell3 = DummyOrder::new(77, 12, 3, SideT::SELL, OrderTypeT::LIMIT);
    let dummy_sell4 = DummyOrder::new(66, 11, 4, SideT::SELL, OrderTypeT::LIMIT);

    // Notice they are inverted.
    verify_mutations(
        &ledger.add_order(dummy_sell4.to_order()),
        &vec![LedgerMutation::AddedMakerOrder(dummy_sell4.to_order())],
    );
    verify_mutations(
        &ledger.add_order(dummy_sell3.to_order()),
        &vec![LedgerMutation::AddedMakerOrder(dummy_sell3.to_order())],
    );
    verify_mutations(
        &ledger.add_order(dummy_sell2.to_order()),
        &vec![LedgerMutation::AddedMakerOrder(dummy_sell2.to_order())],
    );
    verify_mutations(
        &ledger.add_order(dummy_sell1.to_order()),
        &vec![LedgerMutation::AddedMakerOrder(dummy_sell1.to_order())],
    );

    let dummy_buy = DummyOrder::new(5, 100, 10, SideT::BUY, OrderTypeT::LIMIT);
    verify_mutations(
        &ledger.add_order(dummy_buy.to_order()),
        &vec![
            LedgerMutation::TradeExecuted(Trade::new(dummy_buy.to_order(), dummy_sell4.to_order())),
            LedgerMutation::TradeExecuted(Trade::new(dummy_buy.to_order(), dummy_sell3.to_order())),
            LedgerMutation::TradeExecuted(Trade::new(dummy_buy.to_order(), dummy_sell2.to_order())),
            LedgerMutation::TradeExecuted(Trade::new(dummy_buy.to_order(), dummy_sell1.to_order())),
        ],
    );
    assert_eq!(ledger.buy_ledger_for_test().len(), 0);
    assert_eq!(ledger.sell_ledger_for_test().len(), 0);
}

#[test]
fn sell_limits_inserted_random_traded_in_order() {
    let mut ledger = Ledger::default();
    let dummy_sell1 = DummyOrder::new(99, 14, 1, SideT::SELL, OrderTypeT::LIMIT);
    let dummy_sell2 = DummyOrder::new(88, 13, 2, SideT::SELL, OrderTypeT::LIMIT);
    let dummy_sell3 = DummyOrder::new(77, 12, 3, SideT::SELL, OrderTypeT::LIMIT);
    let dummy_sell4 = DummyOrder::new(66, 11, 4, SideT::SELL, OrderTypeT::LIMIT);

    // Notice they are random.
    verify_mutations(
        &ledger.add_order(dummy_sell3.to_order()),
        &vec![LedgerMutation::AddedMakerOrder(dummy_sell3.to_order())],
    );
    verify_mutations(
        &ledger.add_order(dummy_sell1.to_order()),
        &vec![LedgerMutation::AddedMakerOrder(dummy_sell1.to_order())],
    );
    verify_mutations(
        &ledger.add_order(dummy_sell2.to_order()),
        &vec![LedgerMutation::AddedMakerOrder(dummy_sell2.to_order())],
    );
    verify_mutations(
        &ledger.add_order(dummy_sell4.to_order()),
        &vec![LedgerMutation::AddedMakerOrder(dummy_sell4.to_order())],
    );

    let dummy_buy = DummyOrder::new(5, 100, 10, SideT::BUY, OrderTypeT::LIMIT);
    verify_mutations(
        &ledger.add_order(dummy_buy.to_order()),
        &vec![
            LedgerMutation::TradeExecuted(Trade::new(dummy_buy.to_order(), dummy_sell4.to_order())),
            LedgerMutation::TradeExecuted(Trade::new(dummy_buy.to_order(), dummy_sell3.to_order())),
            LedgerMutation::TradeExecuted(Trade::new(dummy_buy.to_order(), dummy_sell2.to_order())),
            LedgerMutation::TradeExecuted(Trade::new(dummy_buy.to_order(), dummy_sell1.to_order())),
        ],
    );
    assert_eq!(ledger.buy_ledger_for_test().len(), 0);
    assert_eq!(ledger.sell_ledger_for_test().len(), 0);
}

#[test]
fn buy_limit_consumes_and_goes_onto_ledger_then_consumed_by_market() {
    let mut ledger = Ledger::default();
    let dummy_sell1 = DummyOrder::new(99, 14, 1, SideT::SELL, OrderTypeT::LIMIT);
    let dummy_sell2 = DummyOrder::new(88, 17, 1, SideT::SELL, OrderTypeT::LIMIT);

    verify_mutations(
        &ledger.add_order(dummy_sell1.to_order()),
        &vec![LedgerMutation::AddedMakerOrder(dummy_sell1.to_order())],
    );
    verify_mutations(
        &ledger.add_order(dummy_sell2.to_order()),
        &vec![LedgerMutation::AddedMakerOrder(dummy_sell2.to_order())],
    );

    let dummy_buy = DummyOrder::new(77, 16, 3, SideT::BUY, OrderTypeT::LIMIT);
    let result_buy = DummyOrder::new(77, 16, 2, SideT::BUY, OrderTypeT::LIMIT);
    verify_mutations(
        &ledger.add_order(dummy_buy.to_order()),
        &vec![
            LedgerMutation::TradeExecuted(Trade::new(dummy_buy.to_order(), dummy_sell1.to_order())),
            LedgerMutation::AddedMakerOrder(result_buy.to_order()),
        ],
    );

    let dummy_sell3 = DummyOrder::new(66, 1, 2, SideT::SELL, OrderTypeT::MARKET);
    verify_mutations(
        &ledger.add_order(dummy_sell3.to_order()),
        &vec![LedgerMutation::TradeExecuted(Trade::new(
            dummy_sell3.to_order(),
            dummy_buy.to_order(),
        ))],
    );
    assert_eq!(ledger.buy_ledger_for_test().len(), 0);
    assert_eq!(ledger.sell_ledger_for_test().len(), 1);
    dummy_sell2.verify(&ledger.sell_ledger_for_test().peek_best().unwrap(), true);
}

// Time priority at equal price: with two resting BUY orders at one price,
// the earlier admission trades first.
#[test]
fn time_priority_at_equal_price() {
    let mut ledger = Ledger::default();
    let first = DummyOrder::new(11, 10, 1, SideT::BUY, OrderTypeT::LIMIT);
    let second = DummyOrder::new(22, 10, 1, SideT::BUY, OrderTypeT::LIMIT);
    assert!(ledger.add_order(first.to_order()).is_ok());
    assert!(ledger.add_order(second.to_order()).is_ok());

    let taker = DummyOrder::new(33, 10, 1, SideT::SELL, OrderTypeT::LIMIT);
    let results = ledger.add_order(taker.to_order());
    let mutations = results.as_ref().unwrap();
    assert_eq!(mutations.len(), 1);
    let trade = as_trade(&mutations[0]);
    first.verify(trade.maker(), false);
    assert_eq!(ledger.buy_ledger_for_test().len(), 1);
    second.verify(&ledger.buy_ledger_for_test().peek_best().unwrap(), false);
}

fn book_total_qty(ledger: &Ledger) -> u64 {
    let mut total: u64 = 0;
    for o in ledger.buy_ledger_for_test().orders.iter() {
        total += *o.qty();
    }
    for o in ledger.sell_ledger_for_test().orders.iter() {
        total += *o.qty();
    }
    total
}

// Conservation: across a successful submission, the resting quantity over
// both books grows by the submitted quantity minus twice the traded
// quantity.
#[test]
fn conservation_across_submission() {
    let mut ledger = Ledger::default();
    assert!(ledger.add_order(DummyOrder::new(1, 14, 5, SideT::SELL, OrderTypeT::LIMIT).to_order()).is_ok());
    assert!(ledger.add_order(DummyOrder::new(2, 17, 4, SideT::SELL, OrderTypeT::LIMIT).to_order()).is_ok());
    let before = book_total_qty(&ledger);
    assert_eq!(before, 9);

    // BUY LIMIT 16 x 7 trades 5 at 14, posts residual 2 at 16.
    let results = ledger.add_order(DummyOrder::new(3, 16, 7, SideT::BUY, OrderTypeT::LIMIT).to_order());
    let mutations = results.as_ref().unwrap();
    let mut traded: u64 = 0;
    for m in mutations.iter() {
        if is_trade(m) {
            traded += *as_trade(m).qty();
        }
    }
    assert_eq!(traded, 5);
    let after = book_total_qty(&ledger);
    assert_eq!(after as i64, before as i64 + 7 - 2 * traded as i64);
}

// Mutation sum: traded quantity plus the posted residual's quantity equals
// the submitted quantity when the residual is the taker's own.
#[test]
fn mutation_sum_of_partial_fill() {
    let mut ledger = Ledger::default();
    assert!(ledger.add_order(DummyOrder::new(1, 14, 1, SideT::SELL, OrderTypeT::LIMIT).to_order()).is_ok());
    let results = ledger.add_order(DummyOrder::new(2, 16, 3, SideT::BUY, OrderTypeT::LIMIT).to_order());
    let mutations = results.as_ref().unwrap();
    let mut total: u64 = 0;
    for m in mutations.iter() {
        match m {
            LedgerMutation::TradeExecuted(t) => total += *t.qty(),
            LedgerMutation::AddedMakerOrder(o) => total += *o.qty(),
        }
    }
    assert_eq!(total, 3);
}

// Limit bound honored and price improvement: a BUY taker's trades execute
// at the makers' prices, never above its limit.
#[test]
fn limit_bound_and_price_improvement() {
    let mut ledger = Ledger::default();
    assert!(ledger.add_order(DummyOrder::new(1, 12, 1, SideT::SELL, OrderTypeT::LIMIT).to_order()).is_ok());
    assert!(ledger.add_order(DummyOrder::new(2, 15, 1, SideT::SELL, OrderTypeT::LIMIT).to_order()).is_ok());
    let results = ledger.add_order(DummyOrder::new(3, 15, 2, SideT::BUY, OrderTypeT::LIMIT).to_order());
    let mutations = results.as_ref().unwrap();
    assert_eq!(mutations.len(), 2);
    let first = as_trade(&mutations[0]);
    let second = as_trade(&mutations[1]);
    assert_eq!(*first.price(), 12);
    assert_eq!(*second.price(), 15);
    assert_eq!(*first.price(), *first.maker().price());
    assert_eq!(*second.price(), *second.maker().price());
    assert!(*first.price() <= 15 && *second.price() <= 15);
}

// Atomic revert: a MARKET order too large for the book is rejected and the
// books are exactly as before.
#[test]
fn market_revert_restores_books() {
    let mut ledger = Ledger::default();
    let resting1 = DummyOrder::new(1, 12, 2, SideT::SELL, OrderTypeT::LIMIT);
    let resting2 = DummyOrder::new(2, 15, 1, SideT::SELL, OrderTypeT::LIMIT);
    assert!(ledger.add_order(resting1.to_order()).is_ok());
    assert!(ledger.add_order(resting2.to_order()).is_ok());

    let taker = DummyOrder::new(3, 1, 100, SideT::BUY, OrderTypeT::MARKET);
    let error = ledger.add_order(taker.to_order()).err().unwrap();
    assert_eq!(error, AddOrderError::NotEnoughOrdersToFillMarketOrder);
    assert_eq!(ledger.buy_ledger_for_test().len(), 0);
    assert_eq!(ledger.sell_ledger_for_test().len(), 2);
    resting1.verify(&ledger.sell_ledger_for_test().peek_best().unwrap(), false);
    assert_eq!(book_total_qty(&ledger), 3);
}

// A partially filled MARKET order succeeds as long as liquidity remains at
// the moment of each peek.
#[test]
fn market_partial_fill_succeeds() {
    let mut ledger = Ledger::default();
    assert!(ledger.add_order(DummyOrder::new(1, 9, 2, SideT::BUY, OrderTypeT::LIMIT).to_order()).is_ok());
    assert!(ledger.add_order(DummyOrder::new(2, 8, 4, SideT::BUY, OrderTypeT::LIMIT).to_order()).is_ok());
    let results = ledger.add_order(DummyOrder::new(3, 1, 5, SideT::SELL, OrderTypeT::MARKET).to_order());
    let mutations = results.as_ref().unwrap();
    // The split maker's remainder returns to its book without a mutation.
    assert_eq!(mutations.len(), 2);
    assert_eq!(*as_trade(&mutations[0]).price(), 9);
    assert_eq!(*as_trade(&mutations[0]).qty(), 2);
    assert_eq!(*as_trade(&mutations[1]).price(), 8);
    assert_eq!(*as_trade(&mutations[1]).qty(), 3);
    assert_eq!(ledger.buy_ledger_for_test().len(), 1);
    assert_eq!(*ledger.buy_ledger_for_test().peek_best().unwrap().qty(), 1);
}

// A resting maker split by a smaller taker returns to its book with the
// remainder, silently: the only mutation is the trade.
#[test]
fn maker_residual_requeued() {
    let mut ledger = Ledger::default();
    assert!(ledger.add_order(DummyOrder::new(1, 10, 5, SideT::SELL, OrderTypeT::LIMIT).to_order()).is_ok());
    let results = ledger.add_order(DummyOrder::new(2, 10, 2, SideT::BUY, OrderTypeT::LIMIT).to_order());
    let mutations = results.as_ref().unwrap();
    assert_eq!(mutations.len(), 1);
    assert_eq!(*as_trade(&mutations[0]).qty(), 2);
    assert_eq!(ledger.buy_ledger_for_test().len(), 0);
    assert_eq!(ledger.sell_ledger_for_test().len(), 1);
    let requeued = ledger.sell_ledger_for_test().peek_best().unwrap();
    assert_eq!(*requeued.id(), to_order_id(1));
    assert_eq!(*requeued.qty(), 3);
    assert_eq!(*requeued.side(), SideT::SELL);
}

// A MARKET order for exactly the book's total quantity is the largest one
// that succeeds: one unit more is rejected.
#[test]
fn market_exact_fill_boundary() {
    let mut ledger = Ledger::default();
    assert!(ledger.add_order(DummyOrder::new(1, 10, 2, SideT::SELL, OrderTypeT::LIMIT).to_order()).is_ok());
    assert!(ledger.add_order(DummyOrder::new(2, 12, 3, SideT::SELL, OrderTypeT::LIMIT).to_order()).is_ok());

    let too_big = ledger.add_order(DummyOrder::new(3, 1, 6, SideT::BUY, OrderTypeT::MARKET).to_order());
    assert_eq!(too_big.err().unwrap(), AddOrderError::NotEnoughOrdersToFillMarketOrder);
    assert_eq!(ledger.sell_ledger_for_test().len(), 2);

    let exact = ledger.add_order(DummyOrder::new(4, 1, 5, SideT::BUY, OrderTypeT::MARKET).to_order());
    let mutations = exact.as_ref().unwrap();
    assert_eq!(mutations.len(), 2);
    assert_eq!(ledger.buy_ledger_for_test().len(), 0);
    assert_eq!(ledger.sell_ledger_for_test().len(), 0);
}

// The buy book is kept best-first: descending price, ties broken by
// admission order.
#[test]
fn book_kept_best_first_with_ties() {
    let mut ledger = Ledger::default();
    assert!(ledger.add_order(DummyOrder::new(1, 12, 1, SideT::BUY, OrderTypeT::LIMIT).to_order()).is_ok());
    assert!(ledger.add_order(DummyOrder::new(2, 15, 1, SideT::BUY, OrderTypeT::LIMIT).to_order()).is_ok());
    assert!(ledger.add_order(DummyOrder::new(3, 12, 1, SideT::BUY, OrderTypeT::LIMIT).to_order()).is_ok());
    let resting = &ledger.buy_ledger_for_test().orders;
    assert_eq!(resting.len(), 3);
    assert_eq!(*resting[0].id(), to_order_id(2));
    assert_eq!(*resting[1].id(), to_order_id(1));
    assert_eq!(*resting[2].id(), to_order_id(3));
}

// Trade::execute is total and derives price and quantity from its inputs.
#[test]
fn trade_execute_derivations() {
    let taker = Order::new(to_order_id(5), 20, 7, SideT::BUY, OrderTypeT::LIMIT);
    let maker = Order::new(to_order_id(6), 18, 4, SideT::SELL, OrderTypeT::LIMIT);
    let (trade, residual) = Trade::execute(taker, maker);
    assert_eq!(*trade.price(), 18);
    assert_eq!(*trade.qty(), 4);
    let r = residual.unwrap();
    assert_eq!(*r.id(), to_order_id(5));
    assert_eq!(*r.qty(), 3);

    let taker2 = Order::new(to_order_id(7), 20, 4, SideT::BUY, OrderTypeT::LIMIT);
    let maker2 = Order::new(to_order_id(8), 18, 4, SideT::SELL, OrderTypeT::LIMIT);
    let (trade2, residual2) = Trade::execute(taker2, maker2);
    assert_eq!(*trade2.qty(), 4);
    assert!(residual2.is_none());
}
