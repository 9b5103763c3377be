use hmac::Mac;
use t15_fundraiser::stripe::{
    build_session_params, idempotency_key, parse_signature_header, reply_problem, sign, signature_header_text,
    signature_timestamp_fits, verify_signature, CreatedSession, SessionInfo, SessionLine,
    SessionRequest,
};

#[test]
fn signature_roundtrip_and_tamper() {
    let body = br#"{"id":"evt_1"}"#;
    let h = sign("whsec_x", 1_000, body);
    assert!(verify_signature("whsec_x", &h, body, 1_100, 300));
    assert!(!verify_signature("whsec_y", &h, body, 1_100, 300), "wrong secret");
    assert!(!verify_signature("whsec_x", &h, b"{}", 1_100, 300), "tampered body");
    assert!(!verify_signature("whsec_x", &h, body, 2_000, 300), "stale timestamp");
    assert!(!verify_signature("whsec_x", "garbage", body, 1_000, 300));
    assert!(!verify_signature("whsec_x", "t=1000", body, 1_000, 300), "no v1");
}

#[test]
fn accepts_any_of_multiple_v1() {
    let body = b"x";
    let good = sign("s", 5, body);
    let h = format!("t=5,v1=deadbeef,{}", good.split_once(',').unwrap().1);
    assert!(verify_signature("s", &h, body, 5, 300));
}

#[test]
fn parses_session_and_falls_back_to_metadata_order_id() {
    let full = br#"{"id": "cs_1", "client_reference_id": "o1", "status": "complete",
        "payment_status": "paid", "amount_total": 7000, "payment_intent": "pi_1"}"#;
    let s = SessionInfo::from_json(full, "").unwrap();
    assert_eq!(
        (s.order_id.as_deref(), s.amount_total, s.payment_intent.as_deref()),
        (Some("o1"), 7000, Some("pi_1"))
    );

    let sparse = br#"{"id": "cs_2", "metadata": {"order_id": "o2"}}"#;
    let s = SessionInfo::from_json(sparse, "").unwrap();
    assert_eq!((s.order_id.as_deref(), s.amount_total), (Some("o2"), -1));
    assert!(SessionInfo::from_json(b"{}", "").is_none());
}

#[test]
fn session_params_shape() {
    let req = SessionRequest {
        order_id: "o1".into(),
        email: "a@b.co".into(),
        lines: vec![SessionLine { name: "Wreath".into(), unit_amount: 3500, qty: 2, image_url: None }],
        success_url: "https://x/success".into(),
        cancel_url: "https://x/cancel".into(),
        expires_at: 99,
    };
    let p = build_session_params(&req);
    let get = |k: &str| p.iter().find(|(a, _)| a == k).map(|(_, v)| v.as_str());
    assert_eq!(get("line_items[0][price_data][unit_amount]"), Some("3500"));
    assert_eq!(get("line_items[0][quantity]"), Some("2"));
    assert!(!p.iter().any(|(k, _)| k.starts_with("shipping_address_collection")));
    assert_eq!(get("client_reference_id"), Some("o1"));
    assert!(get("line_items[0][price_data][product_data][images][0]").is_none());
}

#[test]
fn session_params_in_order_with_images() {
    let req = SessionRequest {
        order_id: "o9".into(),
        email: "pat@example.com".into(),
        lines: vec![
            SessionLine { name: "Wreath".into(), unit_amount: 3500, qty: 2, image_url: None },
            SessionLine {
                name: "Boxed Wreath".into(),
                unit_amount: 5500,
                qty: 1,
                image_url: Some("https://f.test/images/box.jpg".into()),
            },
        ],
        success_url: "https://f.test/success".into(),
        cancel_url: "https://f.test/cancel".into(),
        expires_at: -5,
    };
    let p = build_session_params(&req);
    let keys: Vec<&str> = p.iter().map(|(k, _)| k.as_str()).collect();
    assert_eq!(
        keys,
        [
            "mode",
            "customer_email",
            "client_reference_id",
            "metadata[order_id]",
            "payment_intent_data[metadata][order_id]",
            "payment_intent_data[description]",
            "success_url",
            "cancel_url",
            "expires_at",
            "line_items[0][quantity]",
            "line_items[0][price_data][currency]",
            "line_items[0][price_data][unit_amount]",
            "line_items[0][price_data][product_data][name]",
            "line_items[1][quantity]",
            "line_items[1][price_data][currency]",
            "line_items[1][price_data][unit_amount]",
            "line_items[1][price_data][product_data][name]",
            "line_items[1][price_data][product_data][images][0]",
        ]
    );
    assert_eq!(p[0].1, "payment");
    assert_eq!(p[5].1, "Troop fundraiser order o9");
    assert_eq!(p[8].1, "-5");
    assert_eq!(p[10].1, "usd");
    assert_eq!(p[17].1, "https://f.test/images/box.jpg");
}

#[test]
fn sign_builds_lowercase_hex_header() {
    let h = sign("s", 1_700_000_000, b"payload");
    assert!(h.starts_with("t=1700000000,v1="));
    let hex = &h["t=1700000000,v1=".len()..];
    assert_eq!(hex.len(), 64);
    assert!(hex.chars().all(|c| c.is_ascii_digit() || ('a'..='f').contains(&c)));
    // A known HMAC-SHA256 value: key "s", message "1700000000.payload".
    let mut mac = hmac::Hmac::<sha2::Sha256>::new_from_slice(b"s").unwrap();
    mac.update(b"1700000000.payload");
    assert_eq!(hex, hex::encode(mac.finalize().into_bytes()));
}

#[test]
fn header_parsing_keeps_last_timestamp_and_every_hex_signature() {
    let p = parse_signature_header(" t=1 , v1=0a0B , v0=ff, v1=zz, t=42, junk");
    assert_eq!(p.timestamp, Some(42));
    assert_eq!(p.signatures, vec![vec![0x0a, 0x0b]]);
    let p = parse_signature_header("t=5,t=x");
    assert_eq!(p.timestamp, None);
    let p = parse_signature_header("");
    assert_eq!(p.timestamp, None);
    assert!(p.signatures.is_empty());
}

#[test]
fn timestamps_far_from_now_are_flagged() {
    assert!(signature_timestamp_fits("t=5,v1=00", 100));
    assert!(signature_timestamp_fits("garbage", 100));
    assert!(!signature_timestamp_fits("t=-9223372036854775808,v1=00", 100));
}

#[test]
fn signature_at_edge_of_tolerance() {
    let h = sign("k", 1_000, b"b");
    assert!(verify_signature("k", &h, b"b", 1_300, 300));
    assert!(verify_signature("k", &h, b"b", 700, 300));
    assert!(!verify_signature("k", &h, b"b", 1_301, 300));
    assert!(!verify_signature("k", &h, b"b", 699, 300));
}

#[test]
fn session_from_webhook_object() {
    let event = br#"{"id":"evt","type":"checkout.session.expired",
        "data":{"object":{"id":"cs_9","client_reference_id":"o9","status":"expired","payment_status":"unpaid"}}}"#;
    let s = SessionInfo::from_json(event, "/data/object").unwrap();
    assert_eq!(s.id, "cs_9");
    assert_eq!(s.order_id.as_deref(), Some("o9"));
    assert_eq!(s.status, "expired");
    assert_eq!(s.payment_status, "unpaid");
    assert_eq!(s.amount_total, -1);
    assert_eq!(s.payment_intent, None);
    assert!(SessionInfo::from_json(b"not json", "").is_none());
}

#[test]
fn header_text_and_session_fields() {
    assert_eq!(signature_header_text(1000, &[0xab, 0x01, 0x00]), "t=1000,v1=ab0100");
    assert_eq!(signature_header_text(-7, &[]), "t=-7,v1=");
    let s = SessionInfo::from_fields(
        Some("cs".into()),
        None,
        Some("o3".into()),
        None,
        Some("paid".into()),
        None,
        None,
    )
    .unwrap();
    assert_eq!(s.order_id.as_deref(), Some("o3"));
    assert_eq!(s.status, "");
    assert_eq!(s.payment_status, "paid");
    assert_eq!(s.amount_total, -1);
    assert!(SessionInfo::from_fields(None, Some("o".into()), None, None, None, Some(1), None).is_none());
}

#[test]
fn created_sessions_and_api_replies() {
    let s = CreatedSession::from_json(br#"{"id":"cs_1","url":"https://checkout.stripe.test/cs_1"}"#).unwrap();
    assert_eq!((s.id.as_str(), s.url.as_str()), ("cs_1", "https://checkout.stripe.test/cs_1"));
    assert_eq!(CreatedSession::from_json(br#"{"url":"u"}"#).unwrap_err(), "session id missing");
    assert_eq!(CreatedSession::from_json(br#"{"id":"cs"}"#).unwrap_err(), "session url missing");
    assert_eq!(reply_problem(true, "200 OK", b"{}"), None);
    assert_eq!(reply_problem(true, "200 OK", b"<html>").as_deref(), Some("decoding Stripe response"));
    assert_eq!(
        reply_problem(false, "400 Bad Request", br#"{"error":{"message":"No such price"}}"#).as_deref(),
        Some("Stripe returned 400 Bad Request: No such price")
    );
    assert_eq!(
        reply_problem(false, "500 Internal Server Error", b"{}").as_deref(),
        Some("Stripe returned 500 Internal Server Error: unknown error")
    );
}

#[test]
fn session_requests_are_keyed_by_order() {
    assert_eq!(idempotency_key("1b4e28ba-2fa1-4d3b-883f-0016d3cca427"), "order-1b4e28ba-2fa1-4d3b-883f-0016d3cca427");
}
