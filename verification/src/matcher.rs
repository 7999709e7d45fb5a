use crate::ledger::{ids_absent, spec_submit, AddOrderError, AddOrderResults, Ledger};
use crate::order::Order;
use crate::types::ActionIdT;
use vstd::prelude::*;

verus! {

/// Action to process on the matcher thread.
#[derive(Debug)]
pub enum MatcherAction {
    AddOrder(Order),
    Shutdown,
}

/// Result of one matcher action.
#[derive(Debug)]
pub enum MatcherActionResult {
    AddOrder(AddOrderResults),
    ShutdownAck,
}

/// Action message transported to the matcher thread. The matcher answers
/// every `AddOrder` with a `MatcherActionResponse` carrying the same
/// `action_id`.
#[derive(Debug)]
pub struct MatcherThreadActionMessage {
    pub action_id: ActionIdT,
    pub action: MatcherAction,
}

/// Response to one `MatcherThreadActionMessage`; `action_id` names the
/// message answered.
#[derive(Debug)]
pub struct MatcherActionResponse {
    pub action_id: ActionIdT,
    pub result: MatcherActionResult,
}

/// Messages received on the IO thread.
pub enum IoThreadMessage {
    ProcessRawData(Vec<u8>),
    MatcherActionResult(MatcherActionResponse),
    Shutdown,
}

/// One turn of the matcher loop: submit an incoming order to the ledger
/// and answer with the tagged result, or acknowledge shutdown by `None`,
/// upon which the loop stops. The loop's host owns the ledger exclusively
/// and drives this step once per received message, in receipt order.
pub fn matcher_step(ledger: &mut Ledger, msg: MatcherThreadActionMessage) -> (r: Option<
    MatcherActionResponse,
>)
    requires
        old(ledger).wf(),
        old(ledger).next_seq_id < u64::MAX,
        msg.action matches MatcherAction::AddOrder(o) ==> o.admissible() && ids_absent(
            old(ledger).opp_view(o.side),
            o.id,
        ),
    ensures
        final(ledger).wf(),
        match msg.action {
            MatcherAction::Shutdown => r is None && *final(ledger) == *old(ledger),
            MatcherAction::AddOrder(o) => r matches Some(resp) && resp.action_id == msg.action_id
                && (resp.result matches MatcherActionResult::AddOrder(res) && (match res {
                Ok(muts) => spec_submit(
                    old(ledger).buy_ledger@,
                    old(ledger).sell_ledger@,
                    o,
                    old(ledger).next_seq_id,
                ) == Some(
                    (
                        final(ledger).buy_ledger@,
                        final(ledger).sell_ledger@,
                        muts@,
                        final(ledger).next_seq_id,
                    ),
                ),
                Err(e) => {
                    &&& spec_submit(
                        old(ledger).buy_ledger@,
                        old(ledger).sell_ledger@,
                        o,
                        old(ledger).next_seq_id,
                    ) is None
                    &&& e == AddOrderError::NotEnoughOrdersToFillMarketOrder
                    &&& final(ledger).buy_ledger@ == old(ledger).buy_ledger@
                    &&& final(ledger).sell_ledger@ == old(ledger).sell_ledger@
                    &&& final(ledger).next_seq_id == old(ledger).next_seq_id
                },
            })),
        },
{
    match msg.action {
        MatcherAction::AddOrder(order) => {
            let res = ledger.add_order(order);
            Some(
                MatcherActionResponse {
                    action_id: msg.action_id,
                    result: MatcherActionResult::AddOrder(res),
                },
            )
        },
        MatcherAction::Shutdown => None,
    }
}

} // verus!
