//! A single-instrument continuous-auction matching engine.
//!
//! The ledger keeps a two-sided book of resting orders under price-time
//! priority. Each submitted order either matches against resting liquidity,
//! producing trades, or rests on its own side of the book. The `proto`
//! module carries the engine's wire envelope as a compact tag-length-value
//! encoding, and `ingress` turns raw envelopes into matcher actions.

pub mod book;
pub mod ingress;
pub mod laws;
pub mod ledger;
pub mod matcher;
pub mod proto;
pub mod types;
pub mod order;
pub mod trade;

pub use ledger::{AddOrderError, AddOrderResults, Ledger, LedgerMutation, NewOrderError};
pub use matcher::{
    IoThreadMessage, MatcherAction, MatcherActionResponse, MatcherActionResult,
    MatcherThreadActionMessage,
};
pub use order::Order;
pub use trade::Trade;
pub use types::{ActionIdT, OrderIdT, OrderTypeT, PriceT, QtyT, SideT};
