use t15_fundraiser::api::{
    format_cents, CartLine, CatalogItem, CatalogResponse, CheckoutRequest, Delivery, FieldError,
    Fulfillment, ShipTo, Support,
};
use t15_fundraiser::validate::{
    checkout_is_computable, is_contiguous_state, is_local_zip, normalize_email, normalize_phone,
    normalize_state, normalize_zip, validate_checkout, ValidatedOrder,
};

fn catalog() -> CatalogResponse {
    let item = |id: &str, price, f| CatalogItem {
        id: id.into(),
        name: id.into(),
        description: String::new(),
        price_cents: price,
        fulfillment: f,
        max_qty: 5,
        image_url: format!("/images/{id}.jpg"),
        image_alt: "x".into(),
    };
    CatalogResponse {
        open: true,
        closes_at: String::new(),
        delivery_note: String::new(),
        shipping_note: String::new(),
        local_zip_prefixes: vec!["441".into()],
        local_zips: vec!["44001".into()],
        support: Support::default(),
        items: vec![
            item("wreath", 3500, Fulfillment::ScoutDelivery),
            item("box", 5500, Fulfillment::DirectShip),
        ],
    }
}

fn request() -> CheckoutRequest {
    CheckoutRequest {
        lines: vec![CartLine { item_id: "wreath".into(), qty: 2 }],
        email: " Pat@Example.COM ".into(),
        buyer_name: "Pat Smith".into(),
        phone: "(216) 555-0142".into(),
        scout_name: None,
        delivery: Some(Delivery {
            street: "1 Main St".into(),
            city: "Cleveland".into(),
            state: "oh".into(),
            zip: "44101".into(),
            notes: None,
        }),
        shipping: Some(ShipTo {
            name: "Sam Jones".into(),
            line1: "9 Elm St".into(),
            line2: None,
            city: "Akron".into(),
            state: "oh".into(),
            postal_code: "44301".into(),
        }),
        gift_message: Some("Happy Holidays!".into()),
    }
}

/// Checks what the library asks of a request first, as the server does.
fn validate(r: &CheckoutRequest, c: &CatalogResponse) -> Result<ValidatedOrder, Vec<FieldError>> {
    assert!(checkout_is_computable(r, c));
    validate_checkout(r, c)
}

fn fields(r: Result<ValidatedOrder, Vec<FieldError>>) -> Vec<String> {
    r.unwrap_err().into_iter().map(|e| e.field).collect()
}

#[test]
fn valid_order_is_normalized_and_priced_from_catalog() {
    let o = validate(&request(), &catalog()).unwrap();
    assert_eq!(o.email, "pat@example.com");
    assert_eq!(o.phone, "216-555-0142");
    assert_eq!(o.delivery.unwrap().state, "OH");
    assert_eq!(o.total_cents, 7000);
    // Delivery-only cart: shipping address and gift message are dropped.
    assert!(o.shipping.is_none() && o.gift_message.is_none());
}

#[test]
fn mixed_cart_needs_both() {
    let mut r = request();
    r.lines.push(CartLine { item_id: "box".into(), qty: 1 });
    let o = validate(&r, &catalog()).unwrap();
    assert!(o.shipping.is_some() && o.delivery.is_some());
    assert_eq!(o.shipping.unwrap().state, "OH");
    assert_eq!(o.gift_message.as_deref(), Some("Happy Holidays!"));
    assert_eq!(o.total_cents, 12500);
}

#[test]
fn direct_ship_only_ignores_delivery_address() {
    let mut r = request();
    r.lines = vec![CartLine { item_id: "box".into(), qty: 1 }];
    r.delivery = None;
    let o = validate(&r, &catalog()).unwrap();
    assert!(o.delivery.is_none() && o.shipping.is_some());
}

fn ship_only() -> CheckoutRequest {
    let mut r = request();
    r.lines = vec![CartLine { item_id: "box".into(), qty: 1 }];
    r.delivery = None;
    r
}

#[test]
fn shipping_rejects_alaska_hawaii_and_bad_states() {
    for st in ["AK", "hi"] {
        let mut r = ship_only();
        r.shipping.as_mut().unwrap().state = st.into();
        assert_eq!(fields(validate(&r, &catalog())), ["shipping.state"], "{st}");
    }
    let mut r = ship_only();
    r.shipping.as_mut().unwrap().state = "DC".into();
    assert!(validate(&r, &catalog()).is_ok());
    r.shipping.as_mut().unwrap().state = "PR".into();
    assert!(validate(&r, &catalog()).is_err());
}

#[test]
fn missing_shipping_reports_each_field() {
    let mut r = ship_only();
    r.shipping = None;
    assert_eq!(
        fields(validate(&r, &catalog())),
        ["shipping.name", "shipping.line1", "shipping.city", "shipping.state", "shipping.postal_code"]
    );
}

#[test]
fn gift_message_limit_is_twenty_characters() {
    let mut r = ship_only();
    r.gift_message = Some("12345678901234567890".into()); // exactly 20
    assert_eq!(validate(&r, &catalog()).unwrap().gift_message.unwrap().len(), 20);
    r.gift_message = Some("123456789012345678901".into());
    assert_eq!(fields(validate(&r, &catalog())), ["gift_message"]);
    // Multi-byte characters count as one each; blank means no message.
    r.gift_message = Some("Joyeux Noël ❄❄❄❄❄❄❄❄".into());
    assert!(validate(&r, &catalog()).is_ok());
    r.gift_message = Some("   ".into());
    assert_eq!(validate(&r, &catalog()).unwrap().gift_message, None);
    r.gift_message = Some("Bell\u{7}".into());
    assert_eq!(fields(validate(&r, &catalog())), ["gift_message"]);
}

#[test]
fn duplicate_lines_merge_and_respect_max_qty() {
    let mut r = request();
    r.lines = vec![
        CartLine { item_id: "wreath".into(), qty: 3 },
        CartLine { item_id: "wreath".into(), qty: 2 },
    ];
    assert_eq!(validate(&r, &catalog()).unwrap().total_cents, 17500);
    r.lines.push(CartLine { item_id: "wreath".into(), qty: 1 });
    assert_eq!(fields(validate(&r, &catalog())), ["lines"]);
}

#[test]
fn rejects_bad_cart() {
    let mut r = request();
    r.lines = vec![];
    assert_eq!(fields(validate(&r, &catalog())), ["lines"]);
    r.lines = vec![CartLine { item_id: "nope".into(), qty: 1 }];
    assert!(fields(validate(&r, &catalog())).contains(&"lines[0]".to_string()));
    r.lines = vec![CartLine { item_id: "wreath".into(), qty: 0 }];
    assert!(fields(validate(&r, &catalog())).contains(&"lines[0]".to_string()));
}

#[test]
fn rejects_non_local_zip_for_delivery() {
    let mut r = request();
    r.delivery.as_mut().unwrap().zip = "90210".into();
    assert_eq!(fields(validate(&r, &catalog())), ["delivery.zip"]);
    r.delivery.as_mut().unwrap().zip = "44001-1234".into();
    assert!(validate(&r, &catalog()).is_ok());
}

#[test]
fn missing_delivery_reports_each_field() {
    let mut r = request();
    r.delivery = None;
    let f = fields(validate(&r, &catalog()));
    assert_eq!(f, ["delivery.street", "delivery.city", "delivery.state", "delivery.zip"]);
}

#[test]
fn emails() {
    assert!(normalize_email("a.b+c@sub.example.org").is_ok());
    for bad in ["", "a", "a@b", "a@@b.com", "a b@c.com", "@c.com", "a@-c.com", "a@c.c", "a..b@c.com", "a@c..com"] {
        assert!(normalize_email(bad).is_err(), "{bad}");
    }
}

#[test]
fn phones() {
    assert_eq!(normalize_phone("+1 (216) 555-0142").unwrap(), "216-555-0142");
    assert_eq!(normalize_phone("216.555.0142").unwrap(), "216-555-0142");
    for bad in ["", "555-0142", "116-555-0142", "216-155-0142", "216555014299"] {
        assert!(normalize_phone(bad).is_err(), "{bad}");
    }
}

#[test]
fn zips_and_states() {
    assert!(normalize_zip("44101").is_ok() && normalize_zip("44101-1234").is_ok());
    for bad in ["4410", "441011", "44101-12", "abcde", "44101 1234"] {
        assert!(normalize_zip(bad).is_err(), "{bad}");
    }
    assert_eq!(normalize_state(" oh ").unwrap(), "OH");
    assert!(normalize_state("ZZ").is_err());
}

#[test]
fn control_chars_rejected() {
    let mut r = request();
    r.buyer_name = "Pat\u{0}".into();
    assert_eq!(fields(validate(&r, &catalog())), ["buyer_name"]);
}

#[test]
fn cents_format() {
    assert_eq!(format_cents(3500), "$35.00");
    assert_eq!(format_cents(1205), "$12.05");
}

#[test]
fn negative_cents_and_small_amounts() {
    assert_eq!(format_cents(-1205), "-$12.05");
    assert_eq!(format_cents(5), "$0.05");
    assert_eq!(format_cents(0), "$0.00");
}

#[test]
fn error_messages_name_the_problem() {
    let mut r = request();
    r.email = "nope".into();
    r.delivery.as_mut().unwrap().zip = "90210".into();
    let errs = validate(&r, &catalog()).unwrap_err();
    let pairs: Vec<(String, String)> = errs.into_iter().map(|e| (e.field, e.message)).collect();
    assert_eq!(pairs[0].0, "email");
    assert_eq!(pairs[1].0, "delivery.zip");
    assert!(!pairs[1].1.is_empty());
}

#[test]
fn contiguous_states_and_local_zips() {
    assert!(is_contiguous_state("OH") && is_contiguous_state("DC"));
    assert!(!is_contiguous_state("AK") && !is_contiguous_state("HI"));
    // Territories and codes that are not states are not in the contiguous US either.
    assert!(!is_contiguous_state("PR") && !is_contiguous_state("ZZ") && !is_contiguous_state(""));
    let prefixes = vec!["441".to_string()];
    let zips = vec!["44001".to_string()];
    assert!(is_local_zip("44101", &prefixes, &zips));
    assert!(is_local_zip("44001-1234", &prefixes, &zips));
    assert!(!is_local_zip("90210", &prefixes, &zips));
}

#[test]
fn huge_totals_are_not_computable() {
    let mut c = catalog();
    c.items[0].price_cents = i64::MAX;
    let r = request();
    assert!(!checkout_is_computable(&r, &c));
    assert!(checkout_is_computable(&request(), &catalog()));
}

#[test]
fn email_is_trimmed_lowercased_and_stays_normal() {
    let e = normalize_email(" Pat@Example.COM ").unwrap();
    assert_eq!(e, "pat@example.com");
    assert_eq!(normalize_email(&e).unwrap(), e);
    assert_eq!(normalize_email("   ").unwrap_err(), "Enter your email address.");
    assert_eq!(
        normalize_email("pat@example").unwrap_err(),
        "That doesn't look like a valid email address."
    );
}

#[test]
fn normalized_phone_normalizes_to_itself() {
    for input in ["+1 (216) 555-0142", "216.555.0142", "1-216-555-0142"] {
        let p = normalize_phone(input).unwrap();
        assert_eq!(p, "216-555-0142");
        assert_eq!(normalize_phone(&p).unwrap(), p);
    }
    assert_eq!(normalize_phone("  ").unwrap_err(), "Enter a phone number.");
}
