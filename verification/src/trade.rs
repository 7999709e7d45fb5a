use crate::order::Order;
use crate::types::{PriceT, QtyT};
use vstd::prelude::*;

verus! {

/// A single execution pairing an incoming taker with a resting maker.
/// Both originals are embedded unmodified; the trade's price and quantity
/// are derived: the maker's price (price improvement goes to the taker)
/// and the smaller of the two quantities.
#[derive(Debug, Clone, Copy)]
pub struct Trade {
    pub taker: Order,
    pub maker: Order,
}

impl Trade {
    /// Derived trade price: always the resting maker's quote.
    pub open spec fn spec_price(self) -> PriceT {
        self.maker.price
    }

    /// Derived trade quantity: the smaller of the two quantities.
    pub open spec fn spec_qty(self) -> QtyT {
        if self.taker.qty <= self.maker.qty {
            self.taker.qty
        } else {
            self.maker.qty
        }
    }

    /// The residual left over by executing `taker` against `maker`: the
    /// unfilled remainder of whichever order was larger, with its
    /// time-priority key reset, or nothing on an exact fill.
    pub open spec fn spec_residual(taker: Order, maker: Order) -> Option<Order> {
        if taker.qty < maker.qty {
            Some(maker.with_qty((maker.qty - taker.qty) as u64))
        } else if taker.qty > maker.qty {
            Some(taker.with_qty((taker.qty - maker.qty) as u64))
        } else {
            None
        }
    }

    pub fn new(taker: Order, maker: Order) -> (r: Trade)
        ensures
            r == (Trade { taker, maker }),
    {
        Trade { taker, maker }
    }

    /// Execute `taker` against `maker`. Total: it never fails. Returns the
    /// trade embedding both originals, plus the residual order (if any)
    /// carrying the unfilled remainder.
    pub fn execute(taker: Order, maker: Order) -> (r: (Trade, Option<Order>))
        ensures
            r.0 == (Trade { taker, maker }),
            r.1 == Self::spec_residual(taker, maker),
    {
        let residual: Option<Order> = if taker.qty < maker.qty {
            Some(Order::copy_with_new_qty(&maker, maker.qty - taker.qty))
        } else if taker.qty > maker.qty {
            Some(Order::copy_with_new_qty(&taker, taker.qty - maker.qty))
        } else {
            None
        };
        (Trade { taker, maker }, residual)
    }

    pub fn taker(&self) -> (r: &Order)
        ensures
            *r == self.taker,
    {
        &self.taker
    }

    pub fn maker(&self) -> (r: &Order)
        ensures
            *r == self.maker,
    {
        &self.maker
    }

    pub fn price(&self) -> (r: &PriceT)
        ensures
            *r == self.spec_price(),
    {
        &self.maker.price
    }

    pub fn qty(&self) -> (r: &QtyT)
        ensures
            *r == self.spec_qty(),
    {
        if self.taker.qty <= self.maker.qty {
            &self.taker.qty
        } else {
            &self.maker.qty
        }
    }
}

} // verus!
