use tradeengine::ingress::{process_raw_data, FieldNameT, IngressError};
use tradeengine::matcher::{matcher_step, MatcherAction, MatcherActionResult};
use tradeengine::proto::{
    serialize_actions, serialize_any, Actions, AddOrder, Any, OneOfaction_oneof, Order,
};
use tradeengine::{Ledger, LedgerMutation, MatcherThreadActionMessage, OrderTypeT, SideT};

fn wire_order(price: Option<u64>, qty: Option<u64>, side: Option<SideT>, order_type: Option<
    OrderTypeT,
>) -> Order {
    Order { customer_tag: Some(b"77".to_vec()), price, qty, side, order_type }
}

fn envelope_for(order: Order) -> Vec<u8> {
    let actions = Actions {
        id_uuid: Some(vec![9u8; 16]),
        action_oneof: OneOfaction_oneof::add_order(AddOrder {
            currency_pair: Some(b"debug_debug".to_vec()),
            order: Some(order),
        }),
    };
    let any = Any {
        type_url: Some(b"libtradeengine.proto.Actions".to_vec()),
        value: Some(serialize_actions(&actions)),
    };
    serialize_any(&any)
}

#[test]
fn ingest_accepts_valid_envelope() {
    let data = envelope_for(wire_order(
        Some(999),
        Some(111),
        Some(SideT::BUY),
        Some(OrderTypeT::LIMIT),
    ));
    let msg = process_raw_data(&data).expect("valid envelope must be accepted");
    match msg.action {
        MatcherAction::AddOrder(o) => {
            assert_eq!(*o.price(), 999);
            assert_eq!(*o.qty(), 111);
            assert_eq!(*o.side(), SideT::BUY);
            assert_eq!(*o.order_type(), OrderTypeT::LIMIT);
        },
        MatcherAction::Shutdown => panic!("expected an add-order action"),
    }
}

#[test]
fn ingest_rejects_bad_envelope() {
    assert_eq!(process_raw_data(&[0xFFu8, 0xFF]).err().unwrap(), IngressError::BadEnvelope);

    // A well-formed Any with no type_url.
    let any = Any { type_url: None, value: Some(vec![]) };
    assert_eq!(
        process_raw_data(&serialize_any(&any)).err().unwrap(),
        IngressError::BadEnvelope
    );

    // A well-formed Any with a type_url but no value.
    let any2 = Any { type_url: Some(b"libtradeengine.proto.Actions".to_vec()), value: None };
    assert_eq!(
        process_raw_data(&serialize_any(&any2)).err().unwrap(),
        IngressError::BadEnvelope
    );
}

#[test]
fn ingest_rejects_unsupported_type_url() {
    let any = Any { type_url: Some(b"something.else.Entirely".to_vec()), value: Some(vec![]) };
    assert_eq!(
        process_raw_data(&serialize_any(&any)).err().unwrap(),
        IngressError::UnsupportedTypeUrl
    );
}

#[test]
fn ingest_rejects_malformed_inner() {
    let any = Any {
        type_url: Some(b"libtradeengine.proto.Actions".to_vec()),
        value: Some(vec![0xFFu8, 0xFF, 0xFF]),
    };
    assert_eq!(
        process_raw_data(&serialize_any(&any)).err().unwrap(),
        IngressError::MalformedInner
    );

    // An AddOrder with no order, and one with no currency_pair.
    let no_order = Actions {
        id_uuid: None,
        action_oneof: OneOfaction_oneof::add_order(AddOrder {
            currency_pair: Some(b"debug_debug".to_vec()),
            order: None,
        }),
    };
    let any2 = Any {
        type_url: Some(b"libtradeengine.proto.Actions".to_vec()),
        value: Some(serialize_actions(&no_order)),
    };
    assert_eq!(
        process_raw_data(&serialize_any(&any2)).err().unwrap(),
        IngressError::MalformedInner
    );

    let no_pair = Actions {
        id_uuid: None,
        action_oneof: OneOfaction_oneof::add_order(AddOrder {
            currency_pair: None,
            order: Some(wire_order(Some(1), Some(1), Some(SideT::BUY), Some(OrderTypeT::LIMIT))),
        }),
    };
    let any3 = Any {
        type_url: Some(b"libtradeengine.proto.Actions".to_vec()),
        value: Some(serialize_actions(&no_pair)),
    };
    assert_eq!(
        process_raw_data(&serialize_any(&any3)).err().unwrap(),
        IngressError::MalformedInner
    );
}

#[test]
fn ingest_rejects_unknown_action() {
    let actions = Actions { id_uuid: Some(vec![1u8; 16]), action_oneof: OneOfaction_oneof::Unset };
    let any = Any {
        type_url: Some(b"libtradeengine.proto.Actions".to_vec()),
        value: Some(serialize_actions(&actions)),
    };
    assert_eq!(
        process_raw_data(&serialize_any(&any)).err().unwrap(),
        IngressError::UnknownAction
    );
}

#[test]
fn ingest_rejects_fields_out_of_range() {
    let cases: Vec<(Order, FieldNameT)> = vec![
        (
            Order {
                customer_tag: Some(vec![b'x'; 33]),
                price: Some(1),
                qty: Some(1),
                side: Some(SideT::BUY),
                order_type: Some(OrderTypeT::LIMIT),
            },
            FieldNameT::CustomerTag,
        ),
        (
            wire_order(Some(0), Some(1), Some(SideT::BUY), Some(OrderTypeT::LIMIT)),
            FieldNameT::Price,
        ),
        (
            wire_order(None, Some(1), Some(SideT::BUY), Some(OrderTypeT::LIMIT)),
            FieldNameT::Price,
        ),
        (
            wire_order(Some(1), Some(0), Some(SideT::BUY), Some(OrderTypeT::LIMIT)),
            FieldNameT::Qty,
        ),
        (
            wire_order(Some(1), Some(1), Some(SideT::INVALID), Some(OrderTypeT::LIMIT)),
            FieldNameT::Side,
        ),
        (wire_order(Some(1), Some(1), None, Some(OrderTypeT::LIMIT)), FieldNameT::Side),
        (wire_order(Some(1), Some(1), Some(SideT::SELL), None), FieldNameT::OrderType),
        (
            wire_order(Some(1), Some(1), Some(SideT::SELL), Some(OrderTypeT::INVALID)),
            FieldNameT::OrderType,
        ),
    ];
    for (order, field) in cases {
        let err = process_raw_data(&envelope_for(order)).err().unwrap();
        assert_eq!(err, IngressError::FieldOutOfRange(field));
    }
}

#[test]
fn ledger_contains_id_and_admissibility() {
    let mut ledger = Ledger::default();
    let order = tradeengine::Order::new(42u128, 10, 3, SideT::BUY, OrderTypeT::LIMIT);
    assert!(order.check_admissible());
    assert!(!tradeengine::Order::new(1u128, 10, 0, SideT::BUY, OrderTypeT::LIMIT)
        .check_admissible());
    assert!(!tradeengine::Order::new(1u128, 0, 3, SideT::BUY, OrderTypeT::LIMIT)
        .check_admissible());
    assert!(!tradeengine::Order::new(1u128, 10, 3, SideT::INVALID, OrderTypeT::LIMIT)
        .check_admissible());
    assert!(tradeengine::Order::new(1u128, 0, 3, SideT::SELL, OrderTypeT::MARKET)
        .check_admissible());

    assert!(!ledger.contains_id(42u128));
    assert!(ledger.add_order(order).is_ok());
    assert!(ledger.contains_id(42u128));
    assert!(!ledger.contains_id(43u128));
}

#[test]
fn matcher_step_answers_and_stops() {
    let mut ledger = Ledger::default();
    let order = tradeengine::Order::new(42u128, 10, 3, SideT::BUY, OrderTypeT::LIMIT);
    let resp = matcher_step(
        &mut ledger,
        MatcherThreadActionMessage { action_id: 7u128, action: MatcherAction::AddOrder(order) },
    )
    .expect("an add-order action is always answered");
    assert_eq!(resp.action_id, 7u128);
    match resp.result {
        MatcherActionResult::AddOrder(res) => {
            let mutations = res.unwrap();
            assert_eq!(mutations.len(), 1);
            assert!(matches!(mutations[0], LedgerMutation::AddedMakerOrder(_)));
        },
        MatcherActionResult::ShutdownAck => panic!("expected an add-order result"),
    }
    assert_eq!(ledger.buy_ledger_for_test().len(), 1);

    let stop = matcher_step(
        &mut ledger,
        MatcherThreadActionMessage { action_id: 8u128, action: MatcherAction::Shutdown },
    );
    assert!(stop.is_none());
    assert_eq!(ledger.buy_ledger_for_test().len(), 1);
}
