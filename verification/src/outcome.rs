//! Reservation outcome events: exactly one is produced per processed
//! checkout event, reporting success or the reason stock was refused.

use vstd::prelude::*;
use vstd::string::StringExecFns;

verus! {

/// Why a reservation was refused.
#[derive(Debug)]
pub enum FailureReason {
    InsufficientStock { product_id: String },
    UnknownProduct { product_id: String },
    Infrastructure,
}

/// Mathematical model of a failure reason.
pub enum ReasonModel {
    InsufficientStock { product_id: Seq<char> },
    UnknownProduct { product_id: Seq<char> },
    Infrastructure,
}

impl View for FailureReason {
    type V = ReasonModel;

    open spec fn view(&self) -> ReasonModel {
        match self {
            FailureReason::InsufficientStock { product_id } => ReasonModel::InsufficientStock {
                product_id: product_id@,
            },
            FailureReason::UnknownProduct { product_id } => ReasonModel::UnknownProduct {
                product_id: product_id@,
            },
            FailureReason::Infrastructure => ReasonModel::Infrastructure,
        }
    }
}

/// The human-readable text of a failure reason; it names the offending
/// product where there is one.
pub open spec fn reason_text(r: ReasonModel) -> Seq<char> {
    match r {
        ReasonModel::InsufficientStock { product_id } => "insufficient stock for product "@
            + product_id,
        ReasonModel::UnknownProduct { product_id } => "no stock record for product "@ + product_id,
        ReasonModel::Infrastructure => "inventory reservation could not be completed"@,
    }
}

impl FailureReason {
    /// Renders the reason for the outcome event's `reason` field.
    pub fn message(&self) -> (r: String)
        ensures
            r@ == reason_text(self@),
    {
        match self {
            FailureReason::InsufficientStock { product_id } => {
                let mut s: String = "insufficient stock for product ".to_owned();
                s.append(product_id.as_str());
                s
            }
            FailureReason::UnknownProduct { product_id } => {
                let mut s: String = "no stock record for product ".to_owned();
                s.append(product_id.as_str());
                s
            }
            FailureReason::Infrastructure => {
                "inventory reservation could not be completed".to_owned()
            }
        }
    }
}

/// Hyphenated text of a 128-bit UUID value; a function of the value alone.
pub uninterp spec fn uuid_text(id: u128) -> Seq<char>;

/// Relies on uuid::Uuid::to_string, reached through Uuid::from_u128: the
/// hyphenated lowercase form, 36 characters, decided by the value alone.
#[verifier::external_body]
fn format_uuid(id: u128) -> (r: String)
    ensures
        r@ == uuid_text(id),
        r@.len() == 36,
{
    uuid::Uuid::from_u128(id).to_string()
}

/// The outcome event published after a checkout event has been processed.
#[derive(Debug)]
pub enum Outcome {
    InventoryReserved { order_id: u128, user_id: u128, timestamp: String },
    InventoryReservationFailed {
        order_id: u128,
        user_id: u128,
        reason: FailureReason,
        timestamp: String,
    },
}

impl Outcome {
    /// The order this outcome settles.
    pub open spec fn spec_order_id(&self) -> u128 {
        match self {
            Outcome::InventoryReserved { order_id, .. } => *order_id,
            Outcome::InventoryReservationFailed { order_id, .. } => *order_id,
        }
    }

    /// The order this outcome settles.
    pub fn order_id(&self) -> (r: u128)
        ensures
            r == self.spec_order_id(),
    {
        match self {
            Outcome::InventoryReserved { order_id, .. } => *order_id,
            Outcome::InventoryReservationFailed { order_id, .. } => *order_id,
        }
    }

    /// Whether the reservation succeeded.
    pub fn is_reserved(&self) -> (r: bool)
        ensures
            r == (self is InventoryReserved),
    {
        match self {
            Outcome::InventoryReserved { .. } => true,
            Outcome::InventoryReservationFailed { .. } => false,
        }
    }

    /// The `type` tag the outcome travels under on the outbound topic.
    pub fn event_type_tag(&self) -> (r: &'static str)
        ensures
            self is InventoryReserved ==> r@ == "InventoryReservedEvent"@,
            self is InventoryReservationFailed ==> r@ == "InventoryReservationFailedEvent"@,
    {
        match self {
            Outcome::InventoryReserved { .. } => "InventoryReservedEvent",
            Outcome::InventoryReservationFailed { .. } => "InventoryReservationFailedEvent",
        }
    }

    /// The message key the outcome is published under: the order's UUID
    /// text, so that all outcomes of one order share a partition.
    pub fn key(&self) -> (r: String)
        ensures
            r@ == uuid_text(self.spec_order_id()),
            r@.len() == 36,
    {
        format_uuid(self.order_id())
    }

    /// Builds the failure outcome for a reservation that could not be
    /// attempted or committed at all, for the process edge to publish when
    /// the store or the transport fails mid-flight.
    pub fn infrastructure_failure(order_id: u128, user_id: u128, timestamp: String) -> (r: Outcome)
        ensures
            (r matches Outcome::InventoryReservationFailed {
                order_id: o,
                user_id: u,
                reason,
                timestamp: t,
            } && o == order_id && u == user_id && reason@ == ReasonModel::Infrastructure && t
                == timestamp),
    {
        Outcome::InventoryReservationFailed {
            order_id,
            user_id,
            reason: FailureReason::Infrastructure,
            timestamp,
        }
    }
}

} // verus!
