use t15_fundraiser::api::{Fulfillment, Support};
use t15_fundraiser::catalog::{Catalog, RawCatalog, RawFulfillment, RawItem, DEFAULT_MAX_QTY};
use t15_fundraiser::time::Timestamp;

fn wreath() -> RawItem {
    RawItem {
        id: "wreath".into(),
        name: "Wreath".into(),
        description: String::new(),
        price_cents: 3500,
        fulfillment: Fulfillment::ScoutDelivery,
        max_qty: None,
        image: "wreath.jpg".into(),
        image_alt: "A wreath".into(),
    }
}

/// A small catalog that passes every check.
fn good() -> RawCatalog {
    RawCatalog {
        closes_at: "2026-10-30T23:59:59-04:00".into(),
        delivery_note: "d".into(),
        shipping_note: String::new(),
        support: Support::default(),
        fulfillment: RawFulfillment { local_zip_prefixes: vec!["441".into()], local_zips: vec![] },
        items: vec![wreath()],
    }
}

fn at(s: &str) -> Timestamp {
    let t = chrono::DateTime::parse_from_rfc3339(s).unwrap();
    Timestamp { secs: t.timestamp(), nanos: t.timestamp_subsec_nanos() }
}

fn now() -> Timestamp {
    let t = chrono::Utc::now();
    Timestamp { secs: t.timestamp(), nanos: t.timestamp_subsec_nanos() }
}

#[test]
fn parses_good_catalog() {
    let c = Catalog::parse(good(), &vec![true]).unwrap();
    let v = c.view(now());
    assert_eq!(v.items[0].max_qty, 20);
    assert_eq!(v.items[0].image_url, "/images/wreath.jpg");
}

#[test]
fn cutoff_is_inclusive_at_the_second() {
    let c = Catalog::parse(good(), &vec![true]).unwrap();
    assert!(c.is_open(at("2026-10-30T23:59:59-04:00")));
    assert!(!c.is_open(at("2026-10-31T00:00:00-04:00")));
}

#[test]
fn reports_all_problems_at_once() {
    let mut bad = good();
    bad.closes_at = "tomorrow".into();
    bad.items[0].price_cents = 0;
    bad.items[0].id = "Wreath!".into();
    let err = Catalog::parse(bad, &vec![false]).unwrap_err().message;
    assert!(err.contains("3 problem") || err.contains("4 problem"), "{err}");
    assert!(err.contains("closes_at") && err.contains("price_cents") && err.contains("id must be"));
}

#[test]
fn missing_image_and_typos_are_errors() {
    let err = Catalog::parse(good(), &vec![false]).unwrap_err().message;
    assert!(err.contains("not found"), "{err}");
}

#[test]
fn duplicate_ids_rejected() {
    let mut two = good();
    two.items.push(RawItem {
        id: "wreath".into(),
        name: "W2".into(),
        description: String::new(),
        price_cents: 1,
        fulfillment: Fulfillment::DirectShip,
        max_qty: None,
        image: "a.jpg".into(),
        image_alt: "a".into(),
    });
    assert!(Catalog::parse(two, &vec![true, true]).unwrap_err().message.contains("duplicate id"));
}

#[test]
fn view_reports_open_and_copies_the_catalog() {
    let c = Catalog::parse(good(), &vec![true]).unwrap();
    let before = c.view(at("2026-10-01T12:00:00Z"));
    assert!(before.open);
    assert_eq!(before.closes_at, "2026-10-30T23:59:59-04:00");
    assert_eq!(before.delivery_note, "d");
    assert_eq!(before.local_zip_prefixes, vec!["441".to_string()]);
    assert_eq!(before.items[0].fulfillment, Fulfillment::ScoutDelivery);
    assert!(!c.view(at("2026-11-01T00:00:00Z")).open);
    assert_eq!(c.closes_at, at("2026-10-30T23:59:59-04:00"));
}

#[test]
fn each_problem_is_listed_on_its_own_line() {
    let mut bad = good();
    bad.fulfillment.local_zip_prefixes = vec!["44a".into(), "".into()];
    bad.fulfillment.local_zips = vec!["4410".into()];
    bad.items[0].max_qty = Some(0);
    bad.items[0].image = "../x.jpg".into();
    bad.items[0].image_alt = "  ".into();
    bad.items[0].name = " ".into();
    let err = Catalog::parse(bad, &vec![true]).unwrap_err().message;
    assert_eq!(
        err,
        "7 problem(s):\n  - local_zip_prefixes entry \"44a\" must be 1-5 digits\n  - local_zip_prefixes entry \"\" must be 1-5 digits\n  - local_zips entry \"4410\" must be exactly 5 digits\n  - item \"wreath\": name is empty\n  - item \"wreath\": max_qty must be 1-100\n  - item \"wreath\": image must be a plain filename in static/images/\n  - item \"wreath\": image_alt is required"
    );
}

#[test]
fn delivery_items_need_a_local_area_and_items_are_required() {
    let mut bad = good();
    bad.fulfillment.local_zip_prefixes = vec![];
    let err = Catalog::parse(bad, &vec![true]).unwrap_err().message;
    assert!(err.starts_with("1 problem(s):"), "{err}");
    assert!(err.contains("scout_delivery items exist but no local_zip_prefixes or local_zips are configured"));
    let mut empty = good();
    empty.items = vec![];
    let err = Catalog::parse(empty, &vec![]).unwrap_err().message;
    assert_eq!(err, "1 problem(s):\n  - items must not be empty");
}

#[test]
fn default_max_qty_is_twenty() {
    assert_eq!(DEFAULT_MAX_QTY, 20);
}

#[test]
fn closes_at_errors_carry_the_parser_message() {
    let mut bad = good();
    bad.closes_at = "tomorrow".into();
    let err = Catalog::check(bad, Err("premature end of input".into()), &vec![true]).unwrap_err().message;
    assert_eq!(
        err,
        "1 problem(s):\n  - closes_at \"tomorrow\" is not RFC 3339 with an offset: premature end of input"
    );
    let c = Catalog::check(
        good(),
        Ok((Timestamp { secs: 5, nanos: 0 }, "1970-01-01T00:00:05+00:00".into())),
        &vec![true],
    )
    .unwrap();
    assert_eq!(c.closes_at, Timestamp { secs: 5, nanos: 0 });
    assert!(c.is_open(Timestamp { secs: 5, nanos: 0 }));
    assert!(!c.is_open(Timestamp { secs: 5, nanos: 1 }));
}
