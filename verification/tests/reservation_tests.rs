use inventory_core::coordinator::ReservationCoordinator;
use inventory_core::event::{CheckoutInitiated, Envelope, LineItem};
use inventory_core::ledger::{ReserveOutcome, StockLedger};
use inventory_core::outcome::{FailureReason, Outcome};

fn item(product_id: &str, quantity: u32) -> LineItem {
    LineItem { product_id: product_id.to_string(), quantity }
}

fn checkout(order_id: u128, user_id: u128, items: Vec<LineItem>) -> Envelope {
    Envelope::CheckoutInitiated(CheckoutInitiated { order_id, user_id, items })
}

#[test]
fn test_process_checkout_initiated_event_success() {
    let mut ledger = StockLedger::new();
    ledger.upsert("prod-1".to_string(), 10);
    let mut coordinator = ReservationCoordinator::new();

    let envelope = checkout(1, 2, vec![item("prod-1", 5)]);
    let outcome = coordinator.process(&mut ledger, &envelope);

    assert!(matches!(outcome, Some(Outcome::InventoryReserved { .. })));
    assert_eq!(ledger.get_available("prod-1"), Some(5));
}

#[test]
fn test_process_checkout_initiated_event_failure_insufficient_inventory() {
    let mut ledger = StockLedger::new();
    ledger.upsert("prod-2".to_string(), 2);
    let mut coordinator = ReservationCoordinator::new();

    let envelope = checkout(3, 4, vec![item("prod-2", 5)]);
    let outcome = coordinator.process(&mut ledger, &envelope);

    match outcome {
        Some(Outcome::InventoryReservationFailed { reason, .. }) => {
            let text = reason.message();
            assert!(text.contains("insufficient"));
            assert!(text.contains("prod-2"));
        }
        other => panic!("expected a failed outcome, got {:?}", other.is_some()),
    }
    assert_eq!(ledger.get_available("prod-2"), Some(2));
}

#[test]
fn test_reservation_scenario_success_end_to_end() {
    let mut ledger = StockLedger::new();
    ledger.upsert("p1".to_string(), 10);
    let mut coordinator = ReservationCoordinator::new();

    let order = 0xa1;
    let envelope = checkout(order, 0xb1, vec![item("p1", 5)]);
    let outcome = coordinator.process(&mut ledger, &envelope).expect("an outcome is owed");

    assert_eq!(ledger.get_available("p1"), Some(5));
    assert!(outcome.is_reserved());
    assert_eq!(outcome.order_id(), order);
    assert_eq!(outcome.event_type_tag(), "InventoryReservedEvent");
}

#[test]
fn test_reservation_scenario_insufficient_end_to_end() {
    let mut ledger = StockLedger::new();
    ledger.upsert("p2".to_string(), 2);
    let mut coordinator = ReservationCoordinator::new();

    let order = 0xa2;
    let envelope = checkout(order, 0xb2, vec![item("p2", 5)]);
    let outcome = coordinator.process(&mut ledger, &envelope).expect("an outcome is owed");

    assert_eq!(ledger.get_available("p2"), Some(2));
    assert!(!outcome.is_reserved());
    assert_eq!(outcome.order_id(), order);
    assert_eq!(outcome.event_type_tag(), "InventoryReservationFailedEvent");
    match outcome {
        Outcome::InventoryReservationFailed { reason, .. } => {
            assert!(reason.message().contains("insufficient"));
        }
        _ => unreachable!(),
    }
}

#[test]
fn test_reservation_scenario_unknown_product_all_or_nothing() {
    let mut ledger = StockLedger::new();
    ledger.upsert("p1".to_string(), 10);
    let mut coordinator = ReservationCoordinator::new();

    let envelope = checkout(0xa3, 0xb3, vec![item("p1", 1), item("p3", 1)]);
    let outcome = coordinator.process(&mut ledger, &envelope).expect("an outcome is owed");

    // All-or-nothing: p1 must not have been decremented.
    assert_eq!(ledger.get_available("p1"), Some(10));
    match outcome {
        Outcome::InventoryReservationFailed { reason, .. } => {
            assert!(matches!(
                reason,
                FailureReason::UnknownProduct { ref product_id } if product_id == "p3"
            ));
            assert!(reason.message().contains("p3"));
        }
        _ => panic!("expected a failed outcome"),
    }
}

#[test]
fn test_redelivered_event_is_skipped() {
    let mut ledger = StockLedger::new();
    ledger.upsert("p1".to_string(), 10);
    let mut coordinator = ReservationCoordinator::new();

    let envelope = checkout(0xa4, 0xb4, vec![item("p1", 5)]);
    let first = coordinator.process(&mut ledger, &envelope);
    let second = coordinator.process(&mut ledger, &envelope);

    assert!(first.is_some());
    assert!(second.is_none());
    assert_eq!(ledger.get_available("p1"), Some(5));
}

#[test]
fn test_redelivered_failure_is_skipped() {
    let mut ledger = StockLedger::new();
    ledger.upsert("p1".to_string(), 1);
    let mut coordinator = ReservationCoordinator::new();

    let envelope = checkout(0xa5, 0xb5, vec![item("p1", 2)]);
    let first = coordinator.process(&mut ledger, &envelope);
    let second = coordinator.process(&mut ledger, &envelope);

    assert!(matches!(first, Some(Outcome::InventoryReservationFailed { .. })));
    assert!(second.is_none());
    assert_eq!(ledger.get_available("p1"), Some(1));
}

#[test]
fn test_competing_unit_reservations_drain_exactly() {
    let mut ledger = StockLedger::new();
    ledger.upsert("hot".to_string(), 3);
    let mut coordinator = ReservationCoordinator::new();

    let mut successes = 0;
    let mut failures = 0;
    for order in 0..5u128 {
        let envelope = checkout(order, 99, vec![item("hot", 1)]);
        match coordinator.process(&mut ledger, &envelope) {
            Some(Outcome::InventoryReserved { .. }) => successes += 1,
            Some(Outcome::InventoryReservationFailed { .. }) => failures += 1,
            None => panic!("each distinct order is owed an outcome"),
        }
    }

    assert_eq!(successes, 3);
    assert_eq!(failures, 2);
    assert_eq!(ledger.get_available("hot"), Some(0));
}

#[test]
fn test_unrecognized_envelope_is_ignored() {
    let mut ledger = StockLedger::new();
    ledger.upsert("p1".to_string(), 10);
    let mut coordinator = ReservationCoordinator::new();

    let outcome = coordinator.process(&mut ledger, &Envelope::Unrecognized);

    assert!(outcome.is_none());
    assert_eq!(ledger.get_available("p1"), Some(10));
}

#[test]
fn test_duplicate_line_items_are_reserved_sequentially() {
    let mut ledger = StockLedger::new();
    ledger.upsert("p1".to_string(), 10);
    let mut coordinator = ReservationCoordinator::new();

    // 6 + 6 exceeds 10 even though each item alone fits.
    let envelope = checkout(0xa6, 0xb6, vec![item("p1", 6), item("p1", 6)]);
    let outcome = coordinator.process(&mut ledger, &envelope).expect("an outcome is owed");

    assert!(!outcome.is_reserved());
    assert_eq!(ledger.get_available("p1"), Some(10));
}

#[test]
fn test_reserve_all_names_first_failing_product() {
    let mut ledger = StockLedger::new();
    ledger.upsert("a".to_string(), 5);
    ledger.upsert("b".to_string(), 1);

    let items = vec![item("a", 2), item("b", 4)];
    match ledger.reserve_all(&items) {
        ReserveOutcome::Insufficient { product_id, requested, available } => {
            assert_eq!(product_id, "b");
            assert_eq!(requested, 4);
            assert_eq!(available, 1);
        }
        _ => panic!("expected the second item to fail"),
    }
    assert_eq!(ledger.get_available("a"), Some(5));
    assert_eq!(ledger.get_available("b"), Some(1));
}

#[test]
fn test_adjustments_keep_quantities_in_range() {
    let mut ledger = StockLedger::new();

    // Creation from zero through the write path.
    assert_eq!(ledger.adjust("p".to_string(), 7), Some(7));
    assert_eq!(ledger.adjust("p".to_string(), -3), Some(4));
    // A delta below zero is refused and changes nothing.
    assert_eq!(ledger.adjust("p".to_string(), -5), None);
    assert_eq!(ledger.get_available("p"), Some(4));
    // Creation with a negative delta is refused.
    assert_eq!(ledger.adjust("q".to_string(), -1), None);
    assert_eq!(ledger.get_available("q"), None);
}

#[test]
fn test_adjustment_overflow_is_refused() {
    let mut ledger = StockLedger::new();
    ledger.upsert("p".to_string(), u32::MAX);
    assert_eq!(ledger.adjust("p".to_string(), 1), None);
    assert_eq!(ledger.get_available("p"), Some(u32::MAX));
}

#[test]
fn test_upsert_overwrites() {
    let mut ledger = StockLedger::new();
    ledger.upsert("p".to_string(), 3);
    ledger.upsert("p".to_string(), 9);
    assert_eq!(ledger.get_available("p"), Some(9));
    assert_eq!(ledger.get_available("absent"), None);
}

#[test]
fn test_outcome_key_is_the_hyphenated_order_uuid() {
    let mut ledger = StockLedger::new();
    ledger.upsert("p1".to_string(), 10);
    let mut coordinator = ReservationCoordinator::new();

    let envelope = checkout(1, 2, vec![item("p1", 1)]);
    let outcome = coordinator.process(&mut ledger, &envelope).expect("an outcome is owed");

    let key = outcome.key();
    assert_eq!(key, "00000000-0000-0000-0000-000000000001");
    assert_eq!(key.len(), 36);
}

#[test]
fn test_outcome_timestamp_is_nonempty() {
    let mut ledger = StockLedger::new();
    ledger.upsert("p1".to_string(), 10);
    let mut coordinator = ReservationCoordinator::new();

    let envelope = checkout(8, 9, vec![item("p1", 1)]);
    match coordinator.process(&mut ledger, &envelope) {
        Some(Outcome::InventoryReserved { timestamp, .. }) => {
            assert!(!timestamp.is_empty());
        }
        _ => panic!("expected a success outcome"),
    }
}

#[test]
fn test_infrastructure_failure_outcome() {
    let outcome = Outcome::infrastructure_failure(5, 6, "2024-01-01T00:00:00+00:00".to_string());
    assert!(!outcome.is_reserved());
    assert_eq!(outcome.order_id(), 5);
    match outcome {
        Outcome::InventoryReservationFailed { reason, .. } => {
            assert_eq!(reason.message(), "inventory reservation could not be completed");
        }
        _ => unreachable!(),
    }
}

#[test]
fn test_recognized_event_type() {
    assert!(inventory_core::event::recognized_event_type("CheckoutInitiatedEvent"));
    assert!(!inventory_core::event::recognized_event_type("OrderShippedEvent"));
    assert!(!inventory_core::event::recognized_event_type(""));
}

#[test]
fn test_empty_order_reserves_trivially() {
    let mut ledger = StockLedger::new();
    ledger.upsert("p1".to_string(), 10);
    let mut coordinator = ReservationCoordinator::new();

    let envelope = checkout(0xa7, 0xb7, vec![]);
    let outcome = coordinator.process(&mut ledger, &envelope).expect("an outcome is owed");

    assert!(outcome.is_reserved());
    assert_eq!(ledger.get_available("p1"), Some(10));
}

#[test]
fn test_exact_quantity_drains_to_zero() {
    let mut ledger = StockLedger::new();
    ledger.upsert("p1".to_string(), 10);
    let mut coordinator = ReservationCoordinator::new();

    let envelope = checkout(0xa8, 0xb8, vec![item("p1", 10)]);
    let outcome = coordinator.process(&mut ledger, &envelope).expect("an outcome is owed");

    assert!(outcome.is_reserved());
    assert_eq!(ledger.get_available("p1"), Some(0));
}

#[test]
fn test_unknown_product_on_empty_ledger() {
    let mut ledger = StockLedger::new();
    match ledger.reserve_all(&vec![item("ghost", 1)]) {
        ReserveOutcome::NotFound { product_id } => assert_eq!(product_id, "ghost"),
        _ => panic!("an empty ledger knows no product"),
    }
}
