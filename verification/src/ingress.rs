use crate::matcher::{MatcherAction, MatcherThreadActionMessage};
use crate::order::Order;
use crate::proto;
use crate::proto::{
    dec_prefixed_actions, dec_prefixed_any, empty_actions_msg, empty_any_msg, ActionOneofV,
    AddOrderMsgV, OrderMsgV,
};
use crate::types::{OrderIdT, OrderTypeT, PriceT, QtyT, SideT};
use vstd::prelude::*;

verus! {

/// A field the ingress layer rejected and why the request never reached
/// the matcher.
#[derive(Debug, PartialEq, Eq, Structural, Clone, Copy)]
pub enum FieldNameT {
    CustomerTag,
    Price,
    Qty,
    Side,
    OrderType,
}

/// Ingress-local rejections; none of these reaches the matcher.
#[derive(Debug, PartialEq, Eq, Structural, Clone, Copy)]
pub enum IngressError {
    /// The outer envelope was malformed or missing a required field.
    BadEnvelope,
    /// The envelope named a type this service does not accept.
    UnsupportedTypeUrl,
    /// The inner message was malformed or missing a required field.
    MalformedInner,
    /// A field of the submitted order was out of range.
    FieldOutOfRange(FieldNameT),
    /// The action union carried no recognized action.
    UnknownAction,
}

/// The only accepted envelope type name, as its ASCII bytes:
/// `libtradeengine.proto.Actions`.
pub open spec fn actions_type_url() -> Seq<u8> {
    seq![
        108u8,
        105u8,
        98u8,
        116u8,
        114u8,
        97u8,
        100u8,
        101u8,
        101u8,
        110u8,
        103u8,
        105u8,
        110u8,
        101u8,
        46u8,
        112u8,
        114u8,
        111u8,
        116u8,
        111u8,
        46u8,
        65u8,
        99u8,
        116u8,
        105u8,
        111u8,
        110u8,
        115u8,
    ]
}

/// The accepted type name as a byte vector.
pub fn actions_type_url_vec() -> (r: Vec<u8>)
    ensures
        r@ == actions_type_url(),
{
    let r: Vec<u8> = vec![
        108u8, 105u8, 98u8, 116u8, 114u8, 97u8, 100u8, 101u8, 101u8, 110u8, 103u8, 105u8, 110u8,
        101u8, 46u8, 112u8, 114u8, 111u8, 116u8, 111u8, 46u8, 65u8, 99u8, 116u8, 105u8, 111u8,
        110u8, 115u8,
    ];
    proof {
        assert(r@ =~= actions_type_url());
    }
    r
}

/// Byte-for-byte equality of two byte vectors.
pub fn bytes_eq(a: &Vec<u8>, b: &Vec<u8>) -> (r: bool)
    ensures
        r == (a@ == b@),
{
    if a.len() != b.len() {
        return false;
    }
    let mut i: usize = 0;
    while i < a.len()
        invariant
            0 <= i <= a@.len(),
            a@.len() == b@.len(),
            forall|j: int| 0 <= j < i ==> a@[j] == b@[j],
        decreases a@.len() - i,
    {
        if a[i] != b[i] {
            return false;
        }
        i += 1;
    }
    proof {
        assert(a@ =~= b@);
    }
    true
}

/// Range validation of a decoded order, as the ingress layer performs it:
/// the result carries the checked fields, or names the first field out of
/// range. A missing field counts as its zero value, which is rejected.
pub open spec fn spec_sanitize(m: OrderMsgV) -> Result<
    (PriceT, QtyT, SideT, OrderTypeT),
    IngressError,
> {
    let ct_len: nat = match m.customer_tag {
        Some(p) => p.len(),
        None => 0,
    };
    if ct_len > 32 {
        Err(IngressError::FieldOutOfRange(FieldNameT::CustomerTag))
    } else {
        let price = match m.price {
            Some(v) => v,
            None => 0,
        };
        if price == 0 {
            Err(IngressError::FieldOutOfRange(FieldNameT::Price))
        } else {
            let qty = match m.qty {
                Some(v) => v,
                None => 0,
            };
            if qty == 0 {
                Err(IngressError::FieldOutOfRange(FieldNameT::Qty))
            } else {
                let side = match m.side {
                    Some(s) => s,
                    None => SideT::INVALID,
                };
                if side == SideT::INVALID {
                    Err(IngressError::FieldOutOfRange(FieldNameT::Side))
                } else {
                    let order_type = match m.order_type {
                        Some(t) => t,
                        None => OrderTypeT::INVALID,
                    };
                    if order_type == OrderTypeT::INVALID {
                        Err(IngressError::FieldOutOfRange(FieldNameT::OrderType))
                    } else {
                        Ok((price, qty, side, order_type))
                    }
                }
            }
        }
    }
}

/// Validate a decoded wire order and build the engine's order under the
/// ingress-assigned identifier `id`. Succeeds exactly when every field is
/// present and in range.
pub fn sanitize_order(order: &proto::Order, id: OrderIdT) -> (r: Result<Order, IngressError>)
    ensures
        match spec_sanitize(order@) {
            Ok((p, q, s, t)) => r matches Ok(o) && o == (Order {
                id,
                seq_id: 0,
                price: p,
                qty: q,
                side: s,
                order_type: t,
            }),
            Err(e) => r == Err::<Order, IngressError>(e),
        },
{
    let ct_len: usize = match &order.customer_tag {
        Some(p) => p.len(),
        None => 0,
    };
    if ct_len > 32 {
        return Err(IngressError::FieldOutOfRange(FieldNameT::CustomerTag));
    }
    let price: u64 = match order.price {
        Some(v) => v,
        None => 0,
    };
    if price == 0 {
        return Err(IngressError::FieldOutOfRange(FieldNameT::Price));
    }
    let qty: u64 = match order.qty {
        Some(v) => v,
        None => 0,
    };
    if qty == 0 {
        return Err(IngressError::FieldOutOfRange(FieldNameT::Qty));
    }
    let side: SideT = match order.side {
        Some(s) => s,
        None => SideT::INVALID,
    };
    if side == SideT::INVALID {
        return Err(IngressError::FieldOutOfRange(FieldNameT::Side));
    }
    let order_type: OrderTypeT = match order.order_type {
        Some(t) => t,
        None => OrderTypeT::INVALID,
    };
    if order_type == OrderTypeT::INVALID {
        return Err(IngressError::FieldOutOfRange(FieldNameT::OrderType));
    }
    Ok(Order { id, seq_id: 0, price, qty, side, order_type })
}

/// Validation of a decoded `AddOrder`: both fields must be present, then
/// the order's ranges are checked.
pub open spec fn spec_process_add_order(m: AddOrderMsgV) -> Result<
    (PriceT, QtyT, SideT, OrderTypeT),
    IngressError,
> {
    match m.order {
        None => Err(IngressError::MalformedInner),
        Some(om) => match m.currency_pair {
            None => Err(IngressError::MalformedInner),
            Some(_cp) => spec_sanitize(om),
        },
    }
}

/// Build the matcher action for a decoded `AddOrder`, under the
/// ingress-assigned order and action identifiers.
pub fn process_add_order(add_order_data: &proto::AddOrder, order_id: OrderIdT, action_id: u128)
    -> (r: Result<MatcherThreadActionMessage, IngressError>)
    ensures
        match spec_process_add_order(add_order_data@) {
            Ok((p, q, s, t)) => r matches Ok(msg) && msg.action_id == action_id
                && (msg.action matches MatcherAction::AddOrder(o) && o == (Order {
                id: order_id,
                seq_id: 0,
                price: p,
                qty: q,
                side: s,
                order_type: t,
            })),
            Err(e) => r == Err::<MatcherThreadActionMessage, IngressError>(e),
        },
{
    let proto_order = match &add_order_data.order {
        Some(o) => o,
        None => {
            return Err(IngressError::MalformedInner);
        },
    };
    match &add_order_data.currency_pair {
        Some(_cp) => {},
        None => {
            return Err(IngressError::MalformedInner);
        },
    }
    let order = sanitize_order(proto_order, order_id)?;
    Ok(MatcherThreadActionMessage { action_id, action: MatcherAction::AddOrder(order) })
}

/// Full effect of one raw envelope on the ingress layer: either the
/// checked fields of the one order it carries, or the rejection, exactly
/// as `process_raw_data` returns it.
pub open spec fn spec_ingest(s: Seq<u8>) -> Result<(PriceT, QtyT, SideT, OrderTypeT), IngressError> {
    match dec_prefixed_any(s) {
        None => Err(IngressError::BadEnvelope),
        Some(any) => match any.type_url {
            None => Err(IngressError::BadEnvelope),
            Some(url) => if url != actions_type_url() {
                Err(IngressError::UnsupportedTypeUrl)
            } else {
                match any.value {
                    None => Err(IngressError::BadEnvelope),
                    Some(val) => match dec_prefixed_actions(val) {
                        None => Err(IngressError::MalformedInner),
                        Some(acts) => match acts.action_oneof {
                            ActionOneofV::Unset => Err(IngressError::UnknownAction),
                            ActionOneofV::add_order(a) => spec_process_add_order(a),
                        },
                    },
                }
            },
        },
    }
}

/// Decode one raw length-prefixed envelope, validate it, and build the
/// matcher action. Fresh order and action identifiers are drawn for an
/// accepted request; everything else about the result is a function of
/// the input bytes alone.
pub fn process_raw_data(data: &[u8]) -> (r: Result<MatcherThreadActionMessage, IngressError>)
    ensures
        match spec_ingest(data@) {
            Ok((p, q, s, t)) => r matches Ok(msg) && (msg.action matches MatcherAction::AddOrder(o)
                && o.seq_id == 0 && o.price == p && o.qty == q && o.side == s && o.order_type
                == t),
            Err(e) => r == Err::<MatcherThreadActionMessage, IngressError>(e),
        },
{
    let any_proto = match proto::read_prefixed_any(data) {
        Some(m) => m,
        None => {
            return Err(IngressError::BadEnvelope);
        },
    };
    let type_url = match any_proto.type_url {
        Some(u) => u,
        None => {
            return Err(IngressError::BadEnvelope);
        },
    };
    let expected = actions_type_url_vec();
    if !bytes_eq(&type_url, &expected) {
        return Err(IngressError::UnsupportedTypeUrl);
    }
    let proto_value = match any_proto.value {
        Some(v) => v,
        None => {
            return Err(IngressError::BadEnvelope);
        },
    };
    let actions_proto = match proto::read_prefixed_actions(proto_value.as_slice()) {
        Some(m) => m,
        None => {
            return Err(IngressError::MalformedInner);
        },
    };
    match actions_proto.action_oneof {
        proto::OneOfaction_oneof::add_order(add_order_data) => {
            let order_id = fresh_id();
            let action_id = fresh_id();
            process_add_order(&add_order_data, order_id, action_id)
        },
        proto::OneOfaction_oneof::Unset => Err(IngressError::UnknownAction),
    }
}

/// Relies on `uuid::Uuid::new_v4` for a fresh random 128-bit identifier;
/// nothing is assumed of the drawn value.
#[verifier::external_body]
fn fresh_id() -> OrderIdT {
    uuid::Uuid::new_v4().as_u128()
}

} // verus!
