use t15_fundraiser::api::{
    CatalogItem, CatalogResponse, Delivery, ErrorResponse, FieldError, Fulfillment, OrderStatus,
    OrderStatusResponse, ShipTo, Support,
};
use t15_fundraiser::client::{
    after_refusal, badge, build_request, can_poll, cart_total, check_before_submit, decrement_qty,
    delivery_line, first_error, gift_hint, gift_line, increment_qty, line_label, needs_fulfillment,
    opt, poll_again, response_outcome, ship_to_line, shop_page, success_page, ApiError, OrderForm,
    ShopPage, SuccessPage,
};
use t15_fundraiser::validate::checkout_is_computable;

fn items() -> Vec<CatalogItem> {
    let item = |id: &str, price, f| CatalogItem {
        id: id.into(),
        name: id.into(),
        description: String::new(),
        price_cents: price,
        fulfillment: f,
        max_qty: 5,
        image_url: format!("/images/{id}.jpg"),
        image_alt: "x".into(),
    };
    vec![item("wreath", 3500, Fulfillment::ScoutDelivery), item("box", 5500, Fulfillment::DirectShip)]
}

fn form() -> OrderForm {
    OrderForm {
        email: "pat@example.com".into(),
        buyer_name: "Pat".into(),
        phone: "2165550142".into(),
        scout_name: "  ".into(),
        street: "1 Main St".into(),
        city: "Cleveland".into(),
        state: "OH".into(),
        zip: "44101".into(),
        notes: " gate 4 ".into(),
        ship_name: "Sam".into(),
        ship_line1: "9 Elm St".into(),
        ship_line2: "".into(),
        ship_city: "Akron".into(),
        ship_state: "OH".into(),
        ship_zip: "44301".into(),
        gift_message: "Hi".into(),
    }
}

#[test]
fn cart_total_and_needs() {
    let it = items();
    assert_eq!(cart_total(&it, &vec![2, 1]), 12500);
    assert_eq!(cart_total(&it, &vec![0, 0]), 0);
    assert!(needs_fulfillment(&it, &vec![2, 0], Fulfillment::ScoutDelivery));
    assert!(!needs_fulfillment(&it, &vec![2, 0], Fulfillment::DirectShip));
}

#[test]
fn request_keeps_only_what_the_cart_needs() {
    let it = items();
    let r = build_request(&it, &vec![2, 0], &form());
    assert_eq!(r.lines.len(), 1);
    assert_eq!((r.lines[0].item_id.as_str(), r.lines[0].qty), ("wreath", 2));
    assert!(r.delivery.is_some() && r.shipping.is_none() && r.gift_message.is_none());
    assert_eq!(r.delivery.unwrap().notes.as_deref(), Some("gate 4"));
    assert_eq!(r.scout_name, None);
    let r = build_request(&it, &vec![0, 1], &form());
    assert!(r.delivery.is_none());
    assert_eq!(r.shipping.unwrap().line2, None);
    assert_eq!(r.gift_message.as_deref(), Some("Hi"));
}

#[test]
fn quantity_buttons() {
    assert_eq!(decrement_qty(0), 0);
    assert_eq!(decrement_qty(3), 2);
    assert_eq!(increment_qty(4, 5), 5);
    assert_eq!(increment_qty(5, 5), 5);
    assert_eq!(badge(Fulfillment::DirectShip), ("badge ship", "Shipped to you"));
}

#[test]
fn texts() {
    assert_eq!(opt(" x ".into()).as_deref(), Some("x"));
    assert_eq!(opt(" ".into()), None);
    assert_eq!(line_label(2, "Wreath"), "2 × Wreath");
    assert_eq!(gift_hint("Noël"), "4 of 20 characters");
    assert_eq!(gift_line("Merry Christmas!"), "Gift message: “Merry Christmas!”");
    let d = Delivery {
        street: "1 Main St".into(),
        city: "Cleveland".into(),
        state: "OH".into(),
        zip: "44101".into(),
        notes: None,
    };
    assert_eq!(delivery_line(&d), "1 Main St, Cleveland, OH 44101");
    let s = ShipTo {
        name: "Sam Jones".into(),
        line1: "9 Elm St".into(),
        line2: Some("Apt 2".into()),
        city: "Akron".into(),
        state: "OH".into(),
        postal_code: "44301".into(),
    };
    assert_eq!(ship_to_line(&s), "To: Sam Jones, 9 Elm St, Apt 2, Akron, OH 44301");
    let e = ApiError::Server(ErrorResponse { code: "closed".into(), message: "Orders are closed.".into(), fields: vec![] });
    assert_eq!(e.message(), "Orders are closed.");
    assert_eq!(
        ApiError::Network.message(),
        "We couldn't reach the server. Check your connection and try again."
    );
}

fn status(st: OrderStatus) -> Result<OrderStatusResponse, ApiError> {
    Ok(OrderStatusResponse {
        order_id: "o1".into(),
        status: st,
        total_cents: 7000,
        email: "pat@example.com".into(),
        lines: vec![],
        delivery: None,
        ship_to: None,
        gift_message: None,
    })
}

#[test]
fn success_page_polls_while_pending() {
    assert!(poll_again(0, &status(OrderStatus::Pending)));
    assert!(poll_again(5, &status(OrderStatus::Pending)));
    assert!(!poll_again(6, &status(OrderStatus::Pending)));
    assert!(!poll_again(0, &status(OrderStatus::Paid)));
    assert!(!poll_again(0, &Err(ApiError::Network)));
    assert_eq!(success_page(&status(OrderStatus::Paid)), SuccessPage::Confirmation);
    assert_eq!(success_page(&status(OrderStatus::NeedsReview)), SuccessPage::NeedsReview);
    assert_eq!(success_page(&status(OrderStatus::Pending)), SuccessPage::StillPending);
    assert_eq!(success_page(&status(OrderStatus::Failed)), SuccessPage::NotCompleted);
    assert_eq!(success_page(&Err(ApiError::Network)), SuccessPage::LoadFailed);
    assert!(can_poll("o1", "cs_1") && !can_poll("", "cs_1") && !can_poll("o1", ""));
}

#[test]
fn form_errors_and_refusals() {
    let errs = vec![
        FieldError { field: "email".into(), message: "Enter a valid email address.".into() },
        FieldError { field: "email".into(), message: "second".into() },
        FieldError { field: "phone".into(), message: "Enter a 10-digit phone number.".into() },
    ];
    assert_eq!(first_error(&errs, "email").as_deref(), Some("Enter a valid email address."));
    assert_eq!(first_error(&errs, "phone").as_deref(), Some("Enter a 10-digit phone number."));
    assert_eq!(first_error(&errs, "zip"), None);

    let e = ApiError::Server(ErrorResponse { code: "invalid".into(), message: "Please fix the highlighted fields.".into(), fields: errs });
    let (fields, banner) = after_refusal(&e);
    assert_eq!(fields.unwrap().len(), 3);
    assert_eq!(banner, "Please fix the highlighted fields.");
    let (fields, _) = after_refusal(&ApiError::Network);
    assert!(fields.is_none());
}

#[test]
fn form_checks_like_the_server() {
    let it = items();
    let catalog = CatalogResponse {
        open: true,
        closes_at: String::new(),
        delivery_note: String::new(),
        shipping_note: String::new(),
        local_zip_prefixes: vec!["441".into()],
        local_zips: vec![],
        support: Support::default(),
        items: it.clone(),
    };
    let req = build_request(&it, &vec![1, 0], &form());
    assert!(checkout_is_computable(&req, &catalog));
    assert!(check_before_submit(&req, &catalog).is_none());
    let mut bad = form();
    bad.zip = "90210".into();
    let req = build_request(&it, &vec![1, 0], &bad);
    let (banner, errs) = check_before_submit(&req, &catalog).unwrap();
    assert_eq!(banner, "Please fix the highlighted fields.");
    assert_eq!(errs[0].field, "delivery.zip");
}

#[test]
fn answers_and_shop_pages() {
    let ok: Result<u32, ApiError> = response_outcome(true, Some(7), None);
    assert_eq!(ok.unwrap(), 7);
    let undecodable: Result<u32, ApiError> = response_outcome(true, None, None);
    assert!(matches!(undecodable, Err(ApiError::Network)));
    let refused: Result<u32, ApiError> = response_outcome(
        false,
        None,
        Some(ErrorResponse { code: "closed".into(), message: "Orders are closed.".into(), fields: vec![] }),
    );
    assert!(matches!(refused, Err(ApiError::Server(e)) if e.code == "closed"));
    let catalog = |open| CatalogResponse {
        open,
        closes_at: String::new(),
        delivery_note: String::new(),
        shipping_note: String::new(),
        local_zip_prefixes: vec![],
        local_zips: vec![],
        support: Support::default(),
        items: vec![],
    };
    assert_eq!(shop_page(&Ok(catalog(true))), ShopPage::OrderForm);
    assert_eq!(shop_page(&Ok(catalog(false))), ShopPage::Closed);
    assert_eq!(shop_page(&Err(ApiError::Network)), ShopPage::LoadFailed);
}
