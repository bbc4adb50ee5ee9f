//! Inbound checkout events and their mathematical models.

use vstd::prelude::*;

verus! {

/// One line of a checkout order: a product and the quantity demanded.
#[derive(Debug, Clone)]
pub struct LineItem {
    pub product_id: String,
    pub quantity: u32,
}

/// Mathematical model of a line item.
pub struct ItemModel {
    pub product_id: Seq<char>,
    pub quantity: u32,
}

impl View for LineItem {
    type V = ItemModel;

    open spec fn view(&self) -> ItemModel {
        ItemModel { product_id: self.product_id@, quantity: self.quantity }
    }
}

impl DeepView for LineItem {
    type V = ItemModel;

    open spec fn deep_view(&self) -> ItemModel {
        self@
    }
}

/// A checkout event: an order, the initiating user, and its line items.
/// Order and user identifiers are 128-bit values, the numeric form of the
/// UUIDs that travel in the event payload.
#[derive(Debug)]
pub struct CheckoutInitiated {
    pub order_id: u128,
    pub user_id: u128,
    pub items: Vec<LineItem>,
}

/// Mathematical model of a checkout event.
pub struct CheckoutModel {
    pub order_id: u128,
    pub user_id: u128,
    pub items: Seq<ItemModel>,
}

impl View for CheckoutInitiated {
    type V = CheckoutModel;

    open spec fn view(&self) -> CheckoutModel {
        CheckoutModel {
            order_id: self.order_id,
            user_id: self.user_id,
            items: self.items.deep_view(),
        }
    }
}

/// A decoded message from the inbound topic.  The topic carries several
/// event kinds behind one `type` tag; only checkout events drive a
/// reservation, everything else is ignored.
#[derive(Debug)]
pub enum Envelope {
    CheckoutInitiated(CheckoutInitiated),
    Unrecognized,
}

/// Mathematical model of an envelope.
pub enum EnvelopeModel {
    CheckoutInitiated(CheckoutModel),
    Unrecognized,
}

impl View for Envelope {
    type V = EnvelopeModel;

    open spec fn view(&self) -> EnvelopeModel {
        match self {
            Envelope::CheckoutInitiated(ev) => EnvelopeModel::CheckoutInitiated(ev@),
            Envelope::Unrecognized => EnvelopeModel::Unrecognized,
        }
    }
}

/// The `type` tag that marks a checkout event on the inbound topic.
pub open spec fn checkout_tag() -> Seq<char> {
    "CheckoutInitiatedEvent"@
}

/// Decides whether a `type` tag names an event kind this core reserves
/// stock for.  Tags it does not recognize are ignored, not errors.
pub fn recognized_event_type(tag: &str) -> (r: bool)
    ensures
        r == (tag@ == checkout_tag()),
{
    let owned: String = tag.to_owned();
    let expected: String = "CheckoutInitiatedEvent".to_owned();
    owned == expected
}

} // verus!
