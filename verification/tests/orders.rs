use t15_fundraiser::api::{Delivery, Fulfillment, OrderLine, OrderStatus, ShipTo};
use t15_fundraiser::export::{csv_header, csv_row, write_csv};
use t15_fundraiser::orders::{
    decide_expired, decide_paid, line_fulfillment, row_status, OrderRow, PaidChange, PaidOutcome,
    StoredOrder,
};
use t15_fundraiser::stripe::SessionInfo;
use t15_fundraiser::time::{ts, Timestamp};

fn session(order_id: Option<&str>, amount: i64) -> SessionInfo {
    SessionInfo {
        id: "cs_1".into(),
        order_id: order_id.map(String::from),
        status: "complete".into(),
        payment_status: "paid".into(),
        amount_total: amount,
        payment_intent: Some("pi_123".into()),
    }
}

fn stored(status: OrderStatus, total: i64, sid: Option<&str>) -> StoredOrder {
    StoredOrder { status, total_cents: total, stripe_session_id: sid.map(String::from) }
}

#[test]
fn paid_session_marks_pending_order_paid() {
    let d = decide_paid(true, Some(stored(OrderStatus::Pending, 7000, Some("cs_1"))), &session(Some("o1"), 7000));
    assert_eq!(d.outcome, PaidOutcome::Paid);
    assert!(matches!(d.change, PaidChange::MarkPaid));
    assert!(d.commit);
}

#[test]
fn redelivered_event_is_a_duplicate() {
    let d = decide_paid(false, Some(stored(OrderStatus::Pending, 7000, None)), &session(Some("o1"), 7000));
    assert_eq!(d.outcome, PaidOutcome::Duplicate);
    assert!(matches!(d.change, PaidChange::Untouched));
    assert!(!d.commit);
}

#[test]
fn paid_order_stays_paid() {
    let d = decide_paid(true, Some(stored(OrderStatus::Paid, 7000, Some("cs_1"))), &session(Some("o1"), 100));
    assert_eq!(d.outcome, PaidOutcome::AlreadyPaid);
    assert!(matches!(d.change, PaidChange::Untouched));
    let e = decide_expired(true, Some(OrderStatus::Paid));
    assert!(!e.expire && e.commit);
}

#[test]
fn amount_mismatch_flags_order_instead_of_marking_paid() {
    let d = decide_paid(true, Some(stored(OrderStatus::Pending, 7000, Some("cs_1"))), &session(Some("o1"), 100));
    assert_eq!(d.outcome, PaidOutcome::AmountMismatch);
    match d.change {
        PaidChange::FlagForReview { reason } => assert_eq!(reason, "Stripe amount 100 != order total 7000"),
        _ => panic!("expected a review flag"),
    }
}

#[test]
fn other_session_flags_for_review() {
    let d = decide_paid(true, Some(stored(OrderStatus::Pending, 7000, Some("cs_other"))), &session(Some("o1"), 7000));
    assert_eq!(d.outcome, PaidOutcome::AmountMismatch);
    match d.change {
        PaidChange::FlagForReview { reason } => {
            assert_eq!(reason, "Stripe session cs_1 != recorded session Some(\"cs_other\")")
        }
        _ => panic!("expected a review flag"),
    }
}

#[test]
fn unknown_orders_are_reported() {
    let d = decide_paid(true, None, &session(Some("o1"), 7000));
    assert_eq!(d.outcome, PaidOutcome::UnknownOrder);
    assert!(d.commit);
    let d = decide_paid(true, None, &session(None, 7000));
    assert_eq!(d.outcome, PaidOutcome::UnknownOrder);
    assert!(!d.commit);
}

#[test]
fn expired_event_expires_pending_but_never_paid_orders() {
    assert!(decide_expired(true, Some(OrderStatus::Pending)).expire);
    for st in [OrderStatus::Paid, OrderStatus::Expired, OrderStatus::Failed, OrderStatus::NeedsReview] {
        assert!(!decide_expired(true, Some(st)).expire);
    }
    assert!(!decide_expired(true, None).expire);
    let dup = decide_expired(false, Some(OrderStatus::Pending));
    assert!(!dup.expire && !dup.commit);
}

#[test]
fn stored_names_read_back() {
    assert_eq!(row_status("paid"), OrderStatus::Paid);
    assert_eq!(row_status("bogus"), OrderStatus::NeedsReview);
    assert_eq!(line_fulfillment("direct_ship"), Fulfillment::DirectShip);
    assert_eq!(line_fulfillment("bogus"), Fulfillment::ScoutDelivery);
}

#[test]
fn timestamps_are_stored_in_utc_to_the_second() {
    assert_eq!(ts(Timestamp { secs: 1_790_942_400, nanos: 500 }).as_deref(), Some("2026-10-02T12:00:00Z"));
}

fn paid_row() -> OrderRow {
    OrderRow {
        id: "o1".into(),
        status: OrderStatus::Paid,
        email: "pat@example.com".into(),
        buyer_name: "Pat Smith".into(),
        phone: "216-555-0142".into(),
        scout_name: None,
        total_cents: 12500,
        delivery: Some(Delivery {
            street: "1 Main St".into(),
            city: "Cleveland".into(),
            state: "OH".into(),
            zip: "44101".into(),
            notes: None,
        }),
        ship_to: Some(ShipTo {
            name: "Sam Jones".into(),
            line1: "9 Elm St".into(),
            line2: Some("Apt 2".into()),
            city: "Akron".into(),
            state: "OH".into(),
            postal_code: "44301".into(),
        }),
        gift_message: Some("Merry Christmas!".into()),
        stripe_session_id: Some("cs_o1".into()),
        review_reason: None,
        created_at: "2026-10-01T12:00:00Z".into(),
        paid_at: Some("2026-10-01T12:00:00Z".into()),
        lines: vec![
            OrderLine {
                item_id: "wreath".into(),
                name: "Wreath".into(),
                unit_price_cents: 3500,
                qty: 2,
                fulfillment: Fulfillment::ScoutDelivery,
            },
            OrderLine {
                item_id: "box".into(),
                name: "Boxed Wreath".into(),
                unit_price_cents: 5500,
                qty: 1,
                fulfillment: Fulfillment::DirectShip,
            },
        ],
    }
}

#[test]
fn export_lists_paid_orders() {
    let rows = vec![paid_row()];
    let mut out = Vec::new();
    write_csv(&rows, &mut out).unwrap();
    let csv = String::from_utf8(out).unwrap();
    assert!(csv.contains("2x Wreath"), "{csv}");
    assert!(csv.contains("1x Boxed Wreath"), "{csv}");
    assert!(csv.contains("Sam Jones, 9 Elm St, Apt 2, Akron, OH 44301"), "{csv}");
    assert!(csv.contains("Merry Christmas!"), "{csv}");
    assert!(csv.contains("$125.00"), "{csv}");
    assert!(csv.contains("1 Main St, Cleveland, OH 44101"), "{csv}");
}

#[test]
fn export_starts_with_bom_and_header() {
    let mut out = Vec::new();
    write_csv(&vec![], &mut out).unwrap();
    assert_eq!(&out[..3], b"\xEF\xBB\xBF");
    let text = String::from_utf8(out[3..].to_vec()).unwrap();
    assert_eq!(
        text,
        "order_id,status,paid_at,buyer_name,email,phone,scout_name,total,items,delivery_address,delivery_notes,ship_to,gift_message,review_reason\n"
    );
}

#[test]
fn export_row_fields_in_order() {
    let mut row = paid_row();
    row.status = OrderStatus::NeedsReview;
    row.review_reason = Some("Stripe amount 1 != order total 12500".into());
    row.ship_to = None;
    let mut out = Vec::new();
    write_csv(&vec![row], &mut out).unwrap();
    let text = String::from_utf8(out[3..].to_vec()).unwrap();
    let second = text.lines().nth(1).unwrap();
    assert_eq!(
        second,
        "o1,needs_review,2026-10-01T12:00:00Z,Pat Smith,pat@example.com,216-555-0142,,$125.00,2x Wreath; 1x Boxed Wreath,\"1 Main St, Cleveland, OH 44101\",,,Merry Christmas!,Stripe amount 1 != order total 12500"
    );
}

#[test]
fn csv_fields_of_one_order() {
    let row = csv_row(&paid_row());
    assert_eq!(csv_header().len(), row.len());
    assert_eq!(row[7], "$125.00");
    assert_eq!(row[8], "2x Wreath; 1x Boxed Wreath");
    assert_eq!(row[9], "1 Main St, Cleveland, OH 44101");
    assert_eq!(row[11], "Sam Jones, 9 Elm St, Apt 2, Akron, OH 44301");
}

#[test]
fn webhook_marks_paid_once_and_is_idempotent() {
    let s = session(Some("o1"), 7000);
    let first = decide_paid(true, Some(stored(OrderStatus::Pending, 7000, Some("cs_1"))), &s);
    assert_eq!(first.outcome, PaidOutcome::Paid);
    // The same event again: recorded already, nothing changes.
    let again = decide_paid(false, Some(stored(OrderStatus::Paid, 7000, Some("cs_1"))), &s);
    assert_eq!(again.outcome, PaidOutcome::Duplicate);
    assert!(matches!(again.change, PaidChange::Untouched));
    // Another event for the same session: the order is paid already.
    let other = decide_paid(true, Some(stored(OrderStatus::Paid, 7000, Some("cs_1"))), &s);
    assert_eq!(other.outcome, PaidOutcome::AlreadyPaid);
    assert!(matches!(other.change, PaidChange::Untouched));
}

#[test]
fn export_quotes_fields_with_quotes_and_line_breaks() {
    let mut row = paid_row();
    row.gift_message = Some("Say \"hi\"\nbye".into());
    row.delivery = None;
    row.ship_to = None;
    let mut out = Vec::new();
    write_csv(&vec![row], &mut out).unwrap();
    let text = String::from_utf8(out[3..].to_vec()).unwrap();
    assert!(text.contains(",\"Say \"\"hi\"\"\nbye\","), "{text}");
    assert!(text.ends_with('\n'));
}
