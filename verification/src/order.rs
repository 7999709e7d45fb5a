use crate::types::{order_type_valid, side_valid, OrderIdT, OrderTypeT, PriceT, QtyT, SideT};
use vstd::prelude::*;

verus! {

/// An immutable description of a submitted order.
///
/// `seq_id` is the engine's time-priority key, distinct from the externally
/// visible `id`. A freshly built order carries `seq_id == 0` ("unstamped");
/// the ledger assigns a fresh, strictly increasing `seq_id` whenever an
/// order is admitted to a book, so that among equal prices the earliest
/// admission is preferred and a residual re-entering a book ranks behind
/// every resting peer at its price.
#[derive(Debug, Clone, Copy)]
pub struct Order {
    pub id: OrderIdT,
    pub seq_id: u64,
    pub price: PriceT,
    pub qty: QtyT,
    pub side: SideT,
    pub order_type: OrderTypeT,
}

impl Order {
    /// The same order with quantity `qty` and the time-priority key reset,
    /// as for a residual produced by a partial fill.
    pub open spec fn with_qty(self, qty: QtyT) -> Order {
        Order {
            id: self.id,
            seq_id: 0,
            price: self.price,
            qty,
            side: self.side,
            order_type: self.order_type,
        }
    }

    /// The same order carrying `seq_id` as its time-priority key.
    pub open spec fn stamped(self, seq_id: u64) -> Order {
        Order {
            id: self.id,
            seq_id,
            price: self.price,
            qty: self.qty,
            side: self.side,
            order_type: self.order_type,
        }
    }

    /// What the ledger may assume of a submitted order: positive quantity,
    /// a recognized side and order type, and a positive price unless the
    /// order is MARKET (whose price the ledger never reads).
    pub open spec fn admissible(self) -> bool {
        &&& self.qty > 0
        &&& side_valid(self.side)
        &&& order_type_valid(self.order_type)
        &&& (self.order_type != OrderTypeT::MARKET ==> self.price > 0)
    }

    pub fn new(id: OrderIdT, price: PriceT, qty: QtyT, side: SideT, order_type: OrderTypeT) -> (r:
        Order)
        ensures
            r == (Order { id, seq_id: 0, price, qty, side, order_type }),
    {
        Order { id, seq_id: 0, price, qty, side, order_type }
    }

    /// Derive a residual from `other`: same identity, price, side and type,
    /// new quantity, and the time-priority key reset for re-admission.
    pub fn copy_with_new_qty(other: &Order, qty: QtyT) -> (r: Order)
        ensures
            r == other.with_qty(qty),
    {
        Order {
            id: other.id,
            seq_id: 0,
            price: other.price,
            qty,
            side: other.side,
            order_type: other.order_type,
        }
    }

    /// Executable admission check, for hosts that must test an order
    /// before handing it to the ledger.
    pub fn check_admissible(&self) -> (r: bool)
        ensures
            r == self.admissible(),
    {
        self.qty > 0 && (self.side == SideT::BUY || self.side == SideT::SELL) && match self
            .order_type {
            OrderTypeT::MARKET => true,
            OrderTypeT::LIMIT => self.price > 0,
            OrderTypeT::LIMIT_MAKER => self.price > 0,
            OrderTypeT::INVALID => false,
        }
    }

    pub fn id(&self) -> (r: &OrderIdT)
        ensures
            *r == self.id,
    {
        &self.id
    }

    pub fn price(&self) -> (r: &PriceT)
        ensures
            *r == self.price,
    {
        &self.price
    }

    pub fn qty(&self) -> (r: &QtyT)
        ensures
            *r == self.qty,
    {
        &self.qty
    }

    pub fn side(&self) -> (r: &SideT)
        ensures
            *r == self.side,
    {
        &self.side
    }

    pub fn order_type(&self) -> (r: &OrderTypeT)
        ensures
            *r == self.order_type,
    {
        &self.order_type
    }
}

} // verus!
