use t15_fundraiser::api::{
    CartLine, CheckoutRequest, Delivery, Fulfillment, OrderLine, OrderStatus, ShipTo, Support,
};
use t15_fundraiser::catalog::{Catalog, RawCatalog, RawFulfillment, RawItem};
use t15_fundraiser::orders::OrderRow;
use t15_fundraiser::ratelimit::RateLimiter;
use t15_fundraiser::server::{
    cache_header, checkout_finish, checkout_plan, client_key, needs_reconcile, rate_limit_check,
    reconcile_action, status_lookup, status_response, webhook_action, webhook_plan, ApiError, ReconcileAction,
    WebhookAction, SESSION_TTL_SECS,
};
use t15_fundraiser::stripe::{sign, CreatedSession, SessionInfo};
use t15_fundraiser::time::Timestamp;
use t15_fundraiser::validate::checkout_is_computable;

const SECRET: &str = "whsec_test";

fn item(id: &str, name: &str, price: i64, f: Fulfillment, max_qty: Option<u32>) -> RawItem {
    RawItem {
        id: id.into(),
        name: name.into(),
        description: String::new(),
        price_cents: price,
        fulfillment: f,
        max_qty,
        image: format!("{id}.jpg"),
        image_alt: format!("A {name}"),
    }
}

fn catalog() -> Catalog {
    let raw = RawCatalog {
        closes_at: "2026-10-30T23:59:59-04:00".into(),
        delivery_note: "Delivery Nov 16-24.".into(),
        shipping_note: "Ships when it ships.".into(),
        support: Support::default(),
        fulfillment: RawFulfillment { local_zip_prefixes: vec!["441".into()], local_zips: vec![] },
        items: vec![
            item("wreath", "Wreath", 3500, Fulfillment::ScoutDelivery, Some(5)),
            item("box", "Boxed Wreath", 5500, Fulfillment::DirectShip, None),
        ],
    };
    Catalog::parse(raw, &vec![true, true]).unwrap()
}

fn at(s: &str) -> Timestamp {
    let t = chrono::DateTime::parse_from_rfc3339(s).unwrap();
    Timestamp { secs: t.timestamp(), nanos: t.timestamp_subsec_nanos() }
}

fn order_body(lines: Vec<CartLine>) -> CheckoutRequest {
    CheckoutRequest {
        lines,
        email: "Pat@Example.com".into(),
        buyer_name: "Pat Smith".into(),
        phone: "(216) 555-0142".into(),
        scout_name: None,
        delivery: Some(Delivery {
            street: "1 Main St".into(),
            city: "Cleveland".into(),
            state: "OH".into(),
            zip: "44101".into(),
            notes: None,
        }),
        shipping: Some(ShipTo {
            name: "Sam Jones".into(),
            line1: "9 Elm St".into(),
            line2: Some("Apt 2".into()),
            city: "Akron".into(),
            state: "OH".into(),
            postal_code: "44301".into(),
        }),
        gift_message: Some("Merry Christmas!".into()),
    }
}

fn wreaths(n: u32) -> Vec<CartLine> {
    vec![CartLine { item_id: "wreath".into(), qty: n }]
}

#[test]
fn checkout_creates_pending_order_with_server_side_total() {
    let c = catalog();
    let req = order_body(wreaths(2));
    let now = at("2026-10-01T12:00:00Z");
    assert!(checkout_is_computable(&req, &c.view(now)));
    let plan = checkout_plan(&c, &req, now, "https://fundraiser.test").unwrap();
    assert_eq!(plan.order.total_cents, 7000);
    assert_eq!(plan.order.email, "pat@example.com");
    assert_eq!(plan.order.phone, "216-555-0142");
    assert_eq!(plan.order.delivery.as_ref().unwrap().zip, "44101");
    let s = &plan.session;
    let total: i64 = s.lines.iter().map(|l| l.unit_amount * i64::from(l.qty)).sum();
    assert_eq!(total, 7000);
    assert_eq!(s.order_id, plan.order_id);
    assert_eq!(plan.order_id.len(), 36);
    assert_eq!(s.email, "pat@example.com");
    assert_eq!(s.lines[0].image_url.as_deref(), Some("https://fundraiser.test/images/wreath.jpg"));
    assert_eq!(
        s.success_url,
        format!("https://fundraiser.test/success?order={}&session_id={{CHECKOUT_SESSION_ID}}", plan.order_id)
    );
    assert_eq!(s.cancel_url, format!("https://fundraiser.test/cancel?order={}", plan.order_id));
    assert_eq!(s.expires_at, now.secs + SESSION_TTL_SECS);
    // Thirty minutes.
    assert_eq!(s.expires_at - now.secs, 1800);
    // A delivery-only cart drops the shipping address and the gift message.
    assert!(plan.order.shipping.is_none() && plan.order.gift_message.is_none());
}

#[test]
fn mixed_cart_stores_delivery_shipping_and_gift_message() {
    let c = catalog();
    let req = order_body(vec![
        CartLine { item_id: "wreath".into(), qty: 1 },
        CartLine { item_id: "box".into(), qty: 1 },
    ]);
    let plan = checkout_plan(&c, &req, at("2026-10-01T12:00:00Z"), "http://localhost:8080").unwrap();
    assert_eq!(plan.order.delivery.as_ref().unwrap().street, "1 Main St");
    assert_eq!(plan.order.shipping.as_ref().unwrap().name, "Sam Jones");
    assert_eq!(plan.order.shipping.as_ref().unwrap().line2.as_deref(), Some("Apt 2"));
    assert_eq!(plan.order.gift_message.as_deref(), Some("Merry Christmas!"));
    // Images are only sent when the site is public over https.
    assert!(plan.session.lines.iter().all(|l| l.image_url.is_none()));
}

#[test]
fn checkout_closes_at_cutoff() {
    let c = catalog();
    let req = order_body(wreaths(1));
    assert!(checkout_plan(&c, &req, at("2026-10-30T23:59:59-04:00"), "https://f.test").is_ok());
    let e = checkout_plan(&c, &req, at("2026-10-31T00:00:00-04:00"), "https://f.test").unwrap_err();
    assert_eq!(e.status, 409);
    assert_eq!(e.body.code, "closed");
    assert!(!c.view(at("2026-10-31T00:00:00-04:00")).open);
}

#[test]
fn invalid_checkout_returns_field_errors_and_creates_nothing() {
    let c = catalog();
    let mut req = order_body(wreaths(1));
    req.delivery.as_mut().unwrap().zip = "90210".into();
    req.email = "nope".into();
    let e = checkout_plan(&c, &req, at("2026-10-01T12:00:00Z"), "https://f.test").unwrap_err();
    assert_eq!(e.status, 422);
    assert_eq!(e.body.code, "invalid");
    assert_eq!(e.body.message, "Please fix the highlighted fields.");
    let fields: Vec<&str> = e.body.fields.iter().map(|f| f.field.as_str()).collect();
    assert!(fields.contains(&"delivery.zip") && fields.contains(&"email"), "{fields:?}");
}

#[test]
fn shipping_outside_contiguous_us_or_long_gift_message_is_rejected_before_payment() {
    let c = catalog();
    let mut req = order_body(vec![CartLine { item_id: "box".into(), qty: 1 }]);
    req.shipping.as_mut().unwrap().state = "HI".into();
    req.gift_message = Some("This message is way too long".into());
    let e = checkout_plan(&c, &req, at("2026-10-01T12:00:00Z"), "https://f.test").unwrap_err();
    let fields: Vec<&str> = e.body.fields.iter().map(|f| f.field.as_str()).collect();
    assert_eq!(fields, ["shipping.state", "gift_message"]);
}

#[test]
fn client_supplied_prices_are_ignored() {
    let c = catalog();
    let plan = checkout_plan(&c, &order_body(wreaths(1)), at("2026-10-01T12:00:00Z"), "https://f.test").unwrap();
    assert_eq!(plan.session.lines[0].unit_amount, 3500);
}

#[test]
fn stripe_failure_marks_order_failed() {
    let e = checkout_finish(None).unwrap_err();
    assert_eq!(e.status, 502);
    assert_eq!(e.body.code, "payment_unavailable");
    let ok = checkout_finish(Some(CreatedSession { id: "cs_1".into(), url: "https://checkout.test/cs_1".into() }));
    assert_eq!(ok.unwrap().checkout_url, "https://checkout.test/cs_1");
}

fn completed_event(event_id: &str, order_id: &str, session_id: &str, amount: i64) -> String {
    format!(
        r#"{{"id":"{event_id}","type":"checkout.session.completed","data":{{"object":{{"id":"{session_id}","client_reference_id":"{order_id}","status":"complete","payment_status":"paid","amount_total":{amount},"payment_intent":"pi_123"}}}}}}"#
    )
}

#[test]
fn webhook_rejects_bad_signature() {
    let body = completed_event("evt_1", "o1", "cs_o1", 7000);
    let e = webhook_plan(SECRET, "t=1,v1=00", body.as_bytes(), 1).unwrap_err();
    assert_eq!(e.status, 400);
    assert_eq!(e.body.code, "bad_signature");
}

#[test]
fn webhook_reads_paid_session() {
    let now = 1_790_856_000;
    let body = completed_event("evt_1", "o1", "cs_o1", 7000);
    let sig = sign(SECRET, now, body.as_bytes());
    match webhook_plan(SECRET, &sig, body.as_bytes(), now).unwrap() {
        WebhookAction::Paid { event_id, kind, session } => {
            assert_eq!(event_id, "evt_1");
            assert_eq!(kind, "checkout.session.completed");
            assert_eq!(session.order_id.as_deref(), Some("o1"));
            assert_eq!(session.amount_total, 7000);
            assert_eq!(session.payment_intent.as_deref(), Some("pi_123"));
        }
        other => panic!("unexpected {other:?}"),
    }
}

#[test]
fn webhook_ignores_unpaid_and_other_events() {
    let now = 100;
    let unpaid = r#"{"id":"evt_u","type":"checkout.session.completed","data":{"object":{"id":"cs","payment_status":"unpaid"}}}"#;
    let sig = sign(SECRET, now, unpaid.as_bytes());
    assert!(matches!(webhook_plan(SECRET, &sig, unpaid.as_bytes(), now).unwrap(), WebhookAction::Ignore));
    let other = r#"{"id":"evt_o","type":"charge.refunded","data":{}}"#;
    let sig = sign(SECRET, now, other.as_bytes());
    assert!(matches!(webhook_plan(SECRET, &sig, other.as_bytes(), now).unwrap(), WebhookAction::Ignore));
}

#[test]
fn webhook_reads_expired_session() {
    let now = 100;
    let body = r#"{"id":"evt_x","type":"checkout.session.expired","data":{"object":{"id":"cs","metadata":{"order_id":"o7"},"status":"expired","payment_status":"unpaid"}}}"#;
    let sig = sign(SECRET, now, body.as_bytes());
    match webhook_plan(SECRET, &sig, body.as_bytes(), now).unwrap() {
        WebhookAction::Expired { event_id, order_id, .. } => {
            assert_eq!(event_id, "evt_x");
            assert_eq!(order_id, "o7");
        }
        other => panic!("unexpected {other:?}"),
    }
}

#[test]
fn webhook_rejects_unreadable_payloads() {
    let now = 100;
    for body in ["not json", r#"{"type":"checkout.session.completed"}"#, r#"{"id":"e","type":"checkout.session.completed","data":{"object":{}}}"#] {
        let sig = sign(SECRET, now, body.as_bytes());
        let e = webhook_plan(SECRET, &sig, body.as_bytes(), now).unwrap_err();
        assert_eq!(e.status, 400);
        assert_eq!(e.body.code, "bad_payload", "{body}");
    }
}

fn row(status: OrderStatus, sid: Option<&str>) -> OrderRow {
    OrderRow {
        id: "o1".into(),
        status,
        email: "pat@example.com".into(),
        buyer_name: "Pat".into(),
        phone: "216-555-0142".into(),
        scout_name: None,
        total_cents: 7000,
        delivery: None,
        ship_to: None,
        gift_message: None,
        stripe_session_id: sid.map(String::from),
        review_reason: None,
        created_at: "2026-10-01T12:00:00Z".into(),
        paid_at: None,
        lines: vec![OrderLine {
            item_id: "wreath".into(),
            name: "Wreath".into(),
            unit_price_cents: 3500,
            qty: 2,
            fulfillment: Fulfillment::ScoutDelivery,
        }],
    }
}

#[test]
fn status_requires_matching_session_id() {
    let e = status_lookup(Some(row(OrderStatus::Pending, Some("cs_1"))), "cs_wrong").unwrap_err();
    assert_eq!(e.status, 404);
    assert_eq!(e.body.code, "not_found");
    assert!(status_lookup(None, "cs_x").is_err());
    assert!(status_lookup(Some(row(OrderStatus::Pending, None)), "cs_1").is_err());
    let o = status_lookup(Some(row(OrderStatus::Pending, Some("cs_1"))), "cs_1").unwrap();
    assert!(needs_reconcile(&o));
    let r = status_response(o);
    assert_eq!(r.status, OrderStatus::Pending);
    assert_eq!(r.total_cents, 7000);
    assert_eq!(r.lines[0].name, "Wreath");
}

#[test]
fn success_page_reconciles_when_webhook_is_late() {
    let mut s = SessionInfo {
        id: "cs".into(),
        order_id: Some("o1".into()),
        status: "complete".into(),
        payment_status: "paid".into(),
        amount_total: 7000,
        payment_intent: None,
    };
    assert!(matches!(reconcile_action(&s), ReconcileAction::MarkPaid));
    s.payment_status = "unpaid".into();
    assert!(matches!(reconcile_action(&s), ReconcileAction::Nothing));
    s.status = "expired".into();
    match reconcile_action(&s) {
        ReconcileAction::Expire { order_id } => assert_eq!(order_id, "o1"),
        _ => panic!("expected expiry"),
    }
    s.order_id = None;
    assert!(matches!(reconcile_action(&s), ReconcileAction::Nothing));
}

#[test]
fn checkout_is_rate_limited() {
    let mut rl = RateLimiter::new(10, 60_000_000_000);
    for _ in 0..10 {
        assert!(rate_limit_check(&mut rl, "1.2.3.4", 5).is_none());
    }
    let e = rate_limit_check(&mut rl, "1.2.3.4", 5).unwrap();
    assert_eq!(e.status, 429);
    assert_eq!(e.body.code, "rate_limited");
}

#[test]
fn client_key_prefers_the_proxy_entry_only_when_trusted() {
    let peer = || Some("10.0.0.1".to_string());
    assert_eq!(client_key(true, Some("1.1.1.1, 2.2.2.2 "), peer()), "2.2.2.2");
    assert_eq!(client_key(false, Some("1.1.1.1, 2.2.2.2"), peer()), "10.0.0.1");
    assert_eq!(client_key(true, Some("1.1.1.1, "), peer()), "10.0.0.1");
    assert_eq!(client_key(true, None, None), "unknown");
}

#[test]
fn cache_headers_for_static_files() {
    assert_eq!(cache_header("/api/catalog", false, None), None);
    assert_eq!(cache_header("/app-1234.wasm", false, None), Some("public, max-age=31536000, immutable"));
    assert_eq!(cache_header("/app.js", true, None), None);
    assert_eq!(cache_header("/success", false, Some(b"text/html; charset=utf-8")), Some("no-cache"));
    assert_eq!(cache_header("/images/a.jpg", false, Some(b"image/jpeg")), None);
}

#[test]
fn unknown_api_paths_are_json_404() {
    let e = ApiError::not_found();
    assert_eq!(e.status, 404);
    assert_eq!(e.body.code, "not_found");
    assert_eq!(e.body.message, "Not found.");
    assert!(e.body.fields.is_empty());
}

#[test]
fn webhook_action_on_given_sessions() {
    let s = |status: &str, order: Option<&str>| SessionInfo {
        id: "cs".into(),
        order_id: order.map(String::from),
        status: "complete".into(),
        payment_status: status.into(),
        amount_total: 1,
        payment_intent: None,
    };
    let paid = webhook_action("e1".into(), "checkout.session.async_payment_succeeded".into(), Some(s("paid", Some("o"))));
    assert!(matches!(paid, Ok(WebhookAction::Paid { .. })));
    let e = webhook_action("e1".into(), "checkout.session.completed".into(), None).unwrap_err();
    assert_eq!(e.body.code, "bad_payload");
    let expired = webhook_action("e2".into(), "checkout.session.expired".into(), Some(s("unpaid", Some("o5"))));
    match expired {
        Ok(WebhookAction::Expired { order_id, kind, .. }) => {
            assert_eq!(order_id, "o5");
            assert_eq!(kind, "checkout.session.expired");
        }
        _ => panic!("expected expiry"),
    }
    assert!(matches!(
        webhook_action("e3".into(), "checkout.session.expired".into(), Some(s("unpaid", None))),
        Ok(WebhookAction::Ignore)
    ));
    assert!(matches!(
        webhook_action("e4".into(), "checkout.session.async_payment_failed".into(), Some(s("unpaid", Some("o")))),
        Ok(WebhookAction::Ignore)
    ));
}

#[test]
fn catalog_is_served_and_open() {
    let v = catalog().view(at("2026-10-01T12:00:00Z"));
    assert!(v.open);
    assert_eq!(v.items[0].image_url, "/images/wreath.jpg");
}

#[test]
fn unpaid_completed_session_is_ignored_until_async_success() {
    let now = 1_790_856_000;
    let unpaid = r#"{"id":"evt_u","type":"checkout.session.completed","data":{"object":{"id":"cs_o1","client_reference_id":"o1","status":"complete","payment_status":"unpaid","amount_total":3500}}}"#;
    let sig = sign(SECRET, now, unpaid.as_bytes());
    assert!(matches!(webhook_plan(SECRET, &sig, unpaid.as_bytes(), now).unwrap(), WebhookAction::Ignore));
    let ok = r#"{"id":"evt_ok","type":"checkout.session.async_payment_succeeded","data":{"object":{"id":"cs_o1","client_reference_id":"o1","status":"complete","payment_status":"paid","amount_total":3500}}}"#;
    let sig = sign(SECRET, now, ok.as_bytes());
    match webhook_plan(SECRET, &sig, ok.as_bytes(), now).unwrap() {
        WebhookAction::Paid { event_id, session, .. } => {
            assert_eq!(event_id, "evt_ok");
            assert_eq!(session.amount_total, 3500);
        }
        other => panic!("unexpected {other:?}"),
    }
}

#[test]
fn internal_errors_are_generic() {
    let e = ApiError::internal();
    assert_eq!(e.status, 500);
    assert_eq!(e.body.code, "internal");
    assert_eq!(e.body.message, "Something went wrong. Please try again.");
}
