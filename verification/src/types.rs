use vstd::prelude::*;

verus! {

/// Market side of an order. `INVALID` mirrors the wire encoding's zero
/// value; the ingress layer rejects it before an order reaches the ledger.
#[allow(non_camel_case_types)]
#[derive(Debug, PartialEq, Eq, Structural, Clone, Copy)]
pub enum SideT {
    INVALID,
    BUY,
    SELL,
}

/// Kind of a submitted order. `INVALID` mirrors the wire encoding's zero
/// value and is rejected at ingress. `LIMIT_MAKER` is matched exactly like
/// `LIMIT`; any post-only handling belongs to the protocol layer.
#[allow(non_camel_case_types)]
#[derive(Debug, PartialEq, Eq, Structural, Clone, Copy)]
pub enum OrderTypeT {
    INVALID,
    MARKET,
    LIMIT,
    LIMIT_MAKER,
}

/// Opaque 128-bit order identifier assigned by the ingress layer.
pub type OrderIdT = u128;

/// Price in ticks.
pub type PriceT = u64;

/// Quantity in units of the instrument.
pub type QtyT = u64;

/// 128-bit identifier tagging one ingress action and its response.
pub type ActionIdT = u128;

/// A side the ledger can hold a book for.
pub open spec fn side_valid(s: SideT) -> bool {
    s == SideT::BUY || s == SideT::SELL
}

/// An order type the ledger recognizes.
pub open spec fn order_type_valid(t: OrderTypeT) -> bool {
    t == OrderTypeT::MARKET || t == OrderTypeT::LIMIT || t == OrderTypeT::LIMIT_MAKER
}

/// The side whose resting orders an incoming order of side `s` can match.
pub open spec fn opposite_side(s: SideT) -> SideT {
    if s == SideT::BUY {
        SideT::SELL
    } else {
        SideT::BUY
    }
}

} // verus!
