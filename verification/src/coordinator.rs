//! The reservation coordinator: consumes one decoded envelope at a time,
//! reserves stock through the ledger, and produces at most one outcome
//! event.  Orders it has already settled are recognized and skipped, so a
//! redelivered checkout event neither touches stock again nor produces a
//! second outcome.

use vstd::prelude::*;

use crate::event::{Envelope, EnvelopeModel};
use crate::ledger::{ReserveModel, ReserveOutcome, StockLedger, reserve_seq};
use crate::outcome::{FailureReason, Outcome, ReasonModel};

verus! {

/// What one coordinator step does, in the mathematical model.
pub enum StepModel {
    /// The envelope carries an event kind this core does not reserve for.
    Ignored,
    /// The order was settled by an earlier delivery of the same event.
    Duplicate,
    /// Every line item was reserved; `stock` is the ledger afterwards.
    Reserved { stock: Map<Seq<char>, u32> },
    /// The reservation was refused; the ledger is unchanged.
    Rejected { reason: ReasonModel },
}

/// One step of the coordinator on a decoded envelope: dispatch by kind,
/// skip settled orders, otherwise apply the order's items to the stock as
/// one all-or-nothing reservation.
pub open spec fn coordinator_step(
    stock: Map<Seq<char>, u32>,
    processed: Set<u128>,
    env: EnvelopeModel,
) -> StepModel {
    match env {
        EnvelopeModel::Unrecognized => StepModel::Ignored,
        EnvelopeModel::CheckoutInitiated(ev) => {
            if processed.contains(ev.order_id) {
                StepModel::Duplicate
            } else {
                match reserve_seq(stock, ev.items) {
                    ReserveModel::Reserved { stock: s } => StepModel::Reserved { stock: s },
                    ReserveModel::Insufficient { product_id, .. } => StepModel::Rejected {
                        reason: ReasonModel::InsufficientStock { product_id },
                    },
                    ReserveModel::NotFound { product_id } => StepModel::Rejected {
                        reason: ReasonModel::UnknownProduct { product_id },
                    },
                }
            }
        }
    }
}

/// Relies on chrono::Utc::now and chrono::DateTime::to_rfc3339 for the
/// outcome timestamps: the wall clock decides the value, so only
/// non-emptiness is stated.
#[verifier::external_body]
fn now_rfc3339() -> (r: String)
    ensures
        r@.len() > 0,
{
    chrono::Utc::now().to_rfc3339()
}

/// The coordinator's persistent state: the orders already settled.
pub struct ReservationCoordinator {
    processed: Vec<u128>,
}

impl View for ReservationCoordinator {
    type V = Set<u128>;

    closed spec fn view(&self) -> Set<u128> {
        self.processed@.to_set()
    }
}

impl ReservationCoordinator {
    /// A coordinator that has settled nothing yet.
    pub fn new() -> (r: ReservationCoordinator)
        ensures
            r@ == Set::<u128>::empty(),
    {
        let r = ReservationCoordinator { processed: Vec::new() };
        proof {
            assert(r@ =~= Set::<u128>::empty());
        }
        r
    }

    /// Whether an order was already settled by an earlier event.
    pub fn has_settled(&self, order_id: u128) -> (r: bool)
        ensures
            r == self@.contains(order_id),
    {
        let mut i: usize = 0;
        while i < self.processed.len()
            invariant
                i <= self.processed@.len(),
                forall|k: int| 0 <= k < i ==> (#[trigger] self.processed@[k]) != order_id,
            decreases self.processed@.len() - i,
        {
            if self.processed[i] == order_id {
                return true;
            }
            i += 1;
        }
        proof {
            assert(!self.processed@.contains(order_id));
        }
        false
    }

    /// Processes one decoded envelope against the ledger.  Unrecognized
    /// envelopes and redelivered orders change nothing and produce no
    /// outcome; a fresh checkout event is reserved all-or-nothing and
    /// produces exactly one outcome event, which also settles the order.
    pub fn process(&mut self, ledger: &mut StockLedger, envelope: &Envelope) -> (r: Option<
        Outcome,
    >)
        requires
            old(ledger).wf(),
        ensures
            final(ledger).wf(),
            match coordinator_step(old(ledger)@, old(self)@, envelope@) {
                StepModel::Ignored => *final(ledger) == *old(ledger) && final(self)@ == old(self)@
                    && r is None,
                StepModel::Duplicate => *final(ledger) == *old(ledger) && final(self)@ == old(
                    self,
                )@ && r is None,
                StepModel::Reserved { stock } => {
                    &&& final(ledger)@ == stock
                    &&& (envelope@ matches EnvelopeModel::CheckoutInitiated(ev) && final(self)@
                        == old(self)@.insert(ev.order_id) && (r matches Some(
                        Outcome::InventoryReserved { order_id, user_id, timestamp },
                    ) && order_id == ev.order_id && user_id == ev.user_id && timestamp@.len() > 0))
                },
                StepModel::Rejected { reason } => {
                    &&& *final(ledger) == *old(ledger)
                    &&& (envelope@ matches EnvelopeModel::CheckoutInitiated(ev) && final(self)@
                        == old(self)@.insert(ev.order_id) && (r matches Some(
                        Outcome::InventoryReservationFailed {
                            order_id,
                            user_id,
                            reason: why,
                            timestamp,
                        },
                    ) && order_id == ev.order_id && user_id == ev.user_id && why@ == reason
                        && timestamp@.len() > 0))
                },
            },
    {
        match envelope {
            Envelope::Unrecognized => None,
            Envelope::CheckoutInitiated(ev) => {
                if self.has_settled(ev.order_id) {
                    return None;
                }
                let outcome = match ledger.reserve_all(&ev.items) {
                    ReserveOutcome::Reserved => Outcome::InventoryReserved {
                        order_id: ev.order_id,
                        user_id: ev.user_id,
                        timestamp: now_rfc3339(),
                    },
                    ReserveOutcome::Insufficient { product_id, .. } => {
                        Outcome::InventoryReservationFailed {
                            order_id: ev.order_id,
                            user_id: ev.user_id,
                            reason: FailureReason::InsufficientStock { product_id },
                            timestamp: now_rfc3339(),
                        }
                    }
                    ReserveOutcome::NotFound { product_id } => {
                        Outcome::InventoryReservationFailed {
                            order_id: ev.order_id,
                            user_id: ev.user_id,
                            reason: FailureReason::UnknownProduct { product_id },
                            timestamp: now_rfc3339(),
                        }
                    }
                };
                let ghost before = self.processed@;
                self.processed.push(ev.order_id);
                proof {
                    assert(self.processed@.drop_last() =~= before);
                    assert(self@ =~= before.to_set().insert(ev.order_id)) by {
                        assert forall|x: u128| self@.contains(x) implies before.to_set().insert(
                            ev.order_id,
                        ).contains(x) by {
                            let k = choose|k: int|
                                0 <= k < self.processed@.len() && self.processed@[k] == x;
                            if k < before.len() {
                                assert(before[k] == x);
                            }
                        }
                        assert forall|x: u128| before.to_set().insert(ev.order_id).contains(
                            x,
                        ) implies self@.contains(x) by {
                            if before.to_set().contains(x) {
                                let k = choose|k: int| 0 <= k < before.len() && before[k] == x;
                                assert(self.processed@[k] == x);
                            } else {
                                assert(self.processed@[self.processed@.len() - 1] == x);
                            }
                        }
                    }
                }
                Some(outcome)
            }
        }
    }
}

} // verus!
