//! Event-driven inventory reservation core.
//!
//! The library models the stock ledger of an inventory service and the
//! coordinator that consumes checkout events, reserves stock for every line
//! item of an order all-or-nothing, and reports exactly one outcome per
//! event.  Message transport, JSON codecs and the relational store live
//! outside the library; they hand plain values in and take plain values out.

pub mod config;
pub mod coordinator;
pub mod digits;
pub mod event;
pub mod laws;
pub mod ledger;
pub mod outcome;
