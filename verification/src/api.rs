//! Request and response types shared by the order form and the server, and the small
//! conversions on them.

use vstd::prelude::*;
use vstd::string::StringExecFns;

use crate::text::{decimal, digit_char, str_eq, string_of, u64_decimal};

verus! {

#[derive(Debug, Clone, Copy, PartialEq, Eq, Hash, Structural)]
pub enum Fulfillment {
    ScoutDelivery,
    DirectShip,
}

/// The name a fulfillment method has in the catalog file and the database.
pub open spec fn fulfillment_name(f: Fulfillment) -> Seq<char> {
    match f {
        Fulfillment::ScoutDelivery => "scout_delivery"@,
        Fulfillment::DirectShip => "direct_ship"@,
    }
}

impl Fulfillment {
    pub fn as_str(self) -> (r: &'static str)
        ensures
            r@ == fulfillment_name(self),
    {
        match self {
            Fulfillment::ScoutDelivery => "scout_delivery",
            Fulfillment::DirectShip => "direct_ship",
        }
    }

    pub fn parse(s: &str) -> (r: Option<Self>)
        ensures
            r == (if s@ == "scout_delivery"@ {
                Some(Fulfillment::ScoutDelivery)
            } else if s@ == "direct_ship"@ {
                Some(Fulfillment::DirectShip)
            } else {
                None
            }),
    {
        if str_eq(s, "scout_delivery") {
            Some(Fulfillment::ScoutDelivery)
        } else if str_eq(s, "direct_ship") {
            Some(Fulfillment::DirectShip)
        } else {
            None
        }
    }
}

/// Parsing the name of a fulfillment method gives the method back.
pub proof fn lemma_fulfillment_roundtrip(f: Fulfillment)
    ensures
        (if fulfillment_name(f) == "scout_delivery"@ {
            Some(Fulfillment::ScoutDelivery)
        } else if fulfillment_name(f) == "direct_ship"@ {
            Some(Fulfillment::DirectShip)
        } else {
            None
        }) == Some(f),
{
    reveal_strlit("scout_delivery");
    reveal_strlit("direct_ship");
    assert("scout_delivery"@ != "direct_ship"@) by {
        assert("scout_delivery"@.len() != "direct_ship"@.len());
    }
}

#[derive(Debug)]
pub struct CatalogItem {
    pub id: String,
    pub name: String,
    pub description: String,
    pub price_cents: i64,
    pub fulfillment: Fulfillment,
    pub max_qty: u32,
    pub image_url: String,
    pub image_alt: String,
}

impl Clone for CatalogItem {
    fn clone(&self) -> (r: Self)
        ensures
            r == *self,
    {
        CatalogItem {
            id: self.id.clone(),
            name: self.name.clone(),
            description: self.description.clone(),
            price_cents: self.price_cents,
            fulfillment: self.fulfillment,
            max_qty: self.max_qty,
            image_url: self.image_url.clone(),
            image_alt: self.image_alt.clone(),
        }
    }
}

#[derive(Debug)]
pub struct Support {
    pub email: String,
    pub phone: String,
}

impl Default for Support {
    fn default() -> (r: Self)
        ensures
            r.email@ == Seq::<char>::empty(),
            r.phone@ == Seq::<char>::empty(),
    {
        Support { email: String::new(), phone: String::new() }
    }
}

impl Clone for Support {
    fn clone(&self) -> (r: Self)
        ensures
            r == *self,
    {
        Support { email: self.email.clone(), phone: self.phone.clone() }
    }
}

#[derive(Debug)]
pub struct CatalogResponse {
    pub open: bool,
    /// RFC 3339 timestamp; display only.
    pub closes_at: String,
    pub delivery_note: String,
    pub shipping_note: String,
    pub local_zip_prefixes: Vec<String>,
    pub local_zips: Vec<String>,
    pub support: Support,
    pub items: Vec<CatalogItem>,
}

/// A copy of a vector of strings.
pub fn clone_strings(v: &Vec<String>) -> (r: Vec<String>)
    ensures
        r@ == v@,
{
    let mut r: Vec<String> = Vec::new();
    let mut i: usize = 0;
    while i < v.len()
        invariant
            i <= v.len(),
            r@ == v@.take(i as int),
        decreases v.len() - i,
    {
        r.push(v[i].clone());
        i = i + 1;
        assert(r@ =~= v@.take(i as int));
    }
    assert(v@.take(v.len() as int) =~= v@);
    r
}

pub fn clone_items(v: &Vec<CatalogItem>) -> (r: Vec<CatalogItem>)
    ensures
        r@ == v@,
{
    let mut r: Vec<CatalogItem> = Vec::new();
    let mut i: usize = 0;
    while i < v.len()
        invariant
            i <= v.len(),
            r@ == v@.take(i as int),
        decreases v.len() - i,
    {
        r.push(v[i].clone());
        i = i + 1;
        assert(r@ =~= v@.take(i as int));
    }
    assert(v@.take(v.len() as int) =~= v@);
    r
}

impl CatalogResponse {
    /// Field by field equality, with the vectors compared by their contents.
    pub open spec fn same_as(self, other: CatalogResponse) -> bool {
        &&& self.open == other.open
        &&& self.closes_at == other.closes_at
        &&& self.delivery_note == other.delivery_note
        &&& self.shipping_note == other.shipping_note
        &&& self.local_zip_prefixes@ == other.local_zip_prefixes@
        &&& self.local_zips@ == other.local_zips@
        &&& self.support == other.support
        &&& self.items@ == other.items@
    }
}

impl Clone for CatalogResponse {
    fn clone(&self) -> (r: Self)
        ensures
            r.same_as(*self),
    {
        let r = CatalogResponse {
            open: self.open,
            closes_at: self.closes_at.clone(),
            delivery_note: self.delivery_note.clone(),
            shipping_note: self.shipping_note.clone(),
            local_zip_prefixes: clone_strings(&self.local_zip_prefixes),
            local_zips: clone_strings(&self.local_zips),
            support: self.support.clone(),
            items: clone_items(&self.items),
        };
        r
    }
}

#[derive(Debug)]
pub struct CartLine {
    pub item_id: String,
    pub qty: u32,
}

/// Local drop-off address for scout-delivery items.
#[derive(Debug)]
pub struct Delivery {
    pub street: String,
    pub city: String,
    pub state: String,
    pub zip: String,
    pub notes: Option<String>,
}

impl Default for Delivery {
    fn default() -> (r: Self)
        ensures
            r.street@.len() == 0,
            r.city@.len() == 0,
            r.state@.len() == 0,
            r.zip@.len() == 0,
            r.notes is None,
    {
        Delivery {
            street: String::new(),
            city: String::new(),
            state: String::new(),
            zip: String::new(),
            notes: None,
        }
    }
}

pub fn clone_opt_string(s: &Option<String>) -> (r: Option<String>)
    ensures
        r == *s,
{
    match s {
        Some(x) => Some(x.clone()),
        None => None,
    }
}

impl Clone for Delivery {
    fn clone(&self) -> (r: Self)
        ensures
            r == *self,
    {
        Delivery {
            street: self.street.clone(),
            city: self.city.clone(),
            state: self.state.clone(),
            zip: self.zip.clone(),
            notes: clone_opt_string(&self.notes),
        }
    }
}

/// Gift recipient's address for direct-ship items (contiguous US only).
#[derive(Debug)]
pub struct ShipTo {
    pub name: String,
    pub line1: String,
    pub line2: Option<String>,
    pub city: String,
    pub state: String,
    pub postal_code: String,
}

impl Default for ShipTo {
    fn default() -> (r: Self)
        ensures
            r.name@.len() == 0,
            r.line1@.len() == 0,
            r.line2 is None,
            r.city@.len() == 0,
            r.state@.len() == 0,
            r.postal_code@.len() == 0,
    {
        ShipTo {
            name: String::new(),
            line1: String::new(),
            line2: None,
            city: String::new(),
            state: String::new(),
            postal_code: String::new(),
        }
    }
}

impl Clone for ShipTo {
    fn clone(&self) -> (r: Self)
        ensures
            r == *self,
    {
        ShipTo {
            name: self.name.clone(),
            line1: self.line1.clone(),
            line2: clone_opt_string(&self.line2),
            city: self.city.clone(),
            state: self.state.clone(),
            postal_code: self.postal_code.clone(),
        }
    }
}

#[derive(Debug)]
pub struct CheckoutRequest {
    pub lines: Vec<CartLine>,
    pub email: String,
    pub buyer_name: String,
    pub phone: String,
    pub scout_name: Option<String>,
    pub delivery: Option<Delivery>,
    /// Required when the cart has direct-ship items.
    pub shipping: Option<ShipTo>,
    /// Short message for the gift label (direct-ship orders only).
    pub gift_message: Option<String>,
}

#[derive(Debug)]
pub struct CheckoutResponse {
    pub checkout_url: String,
}

#[derive(Debug)]
pub struct FieldError {
    pub field: String,
    pub message: String,
}

#[derive(Debug)]
pub struct ErrorResponse {
    pub code: String,
    pub message: String,
    pub fields: Vec<FieldError>,
}

#[derive(Debug, Clone, Copy, PartialEq, Eq, Structural)]
pub enum OrderStatus {
    Pending,
    Paid,
    Expired,
    Failed,
    /// Money arrived but something didn't add up (e.g. amount mismatch); a human should look.
    NeedsReview,
}

/// The name an order status has in the database and in JSON.
pub open spec fn status_name(s: OrderStatus) -> Seq<char> {
    match s {
        OrderStatus::Pending => "pending"@,
        OrderStatus::Paid => "paid"@,
        OrderStatus::Expired => "expired"@,
        OrderStatus::Failed => "failed"@,
        OrderStatus::NeedsReview => "needs_review"@,
    }
}

/// The status a name stands for, if any.
pub open spec fn status_from_name(s: Seq<char>) -> Option<OrderStatus> {
    if s == "pending"@ {
        Some(OrderStatus::Pending)
    } else if s == "paid"@ {
        Some(OrderStatus::Paid)
    } else if s == "expired"@ {
        Some(OrderStatus::Expired)
    } else if s == "failed"@ {
        Some(OrderStatus::Failed)
    } else if s == "needs_review"@ {
        Some(OrderStatus::NeedsReview)
    } else {
        None
    }
}

impl OrderStatus {
    pub fn as_str(self) -> (r: &'static str)
        ensures
            r@ == status_name(self),
    {
        match self {
            OrderStatus::Pending => "pending",
            OrderStatus::Paid => "paid",
            OrderStatus::Expired => "expired",
            OrderStatus::Failed => "failed",
            OrderStatus::NeedsReview => "needs_review",
        }
    }

    pub fn parse(s: &str) -> (r: Option<Self>)
        ensures
            r == status_from_name(s@),
    {
        if str_eq(s, "pending") {
            Some(OrderStatus::Pending)
        } else if str_eq(s, "paid") {
            Some(OrderStatus::Paid)
        } else if str_eq(s, "expired") {
            Some(OrderStatus::Expired)
        } else if str_eq(s, "failed") {
            Some(OrderStatus::Failed)
        } else if str_eq(s, "needs_review") {
            Some(OrderStatus::NeedsReview)
        } else {
            None
        }
    }
}

/// Parsing the name of a status gives the status back.
pub proof fn lemma_status_roundtrip(s: OrderStatus)
    ensures
        status_from_name(status_name(s)) == Some(s),
{
    reveal_strlit("pending");
    reveal_strlit("paid");
    reveal_strlit("expired");
    reveal_strlit("failed");
    reveal_strlit("needs_review");
    assert("pending"@ != "paid"@ && "pending"@ != "expired"@ && "pending"@ != "failed"@
        && "pending"@ != "needs_review"@) by {
        assert("pending"@[1] != "paid"@[1]);
        assert("pending"@[0] != "expired"@[0]);
        assert("pending"@[0] != "failed"@[0]);
        assert("pending"@[0] != "needs_review"@[0]);
    }
    assert("paid"@ != "expired"@ && "paid"@ != "failed"@ && "paid"@ != "needs_review"@) by {
        assert("paid"@[0] != "expired"@[0]);
        assert("paid"@[0] != "failed"@[0]);
        assert("paid"@[0] != "needs_review"@[0]);
    }
    assert("expired"@ != "failed"@ && "expired"@ != "needs_review"@) by {
        assert("expired"@[0] != "failed"@[0]);
        assert("expired"@[0] != "needs_review"@[0]);
    }
    assert("failed"@ != "needs_review"@) by {
        assert("failed"@[0] != "needs_review"@[0]);
    }
}

#[derive(Debug)]
pub struct OrderLine {
    pub item_id: String,
    pub name: String,
    pub unit_price_cents: i64,
    pub qty: u32,
    pub fulfillment: Fulfillment,
}

impl Clone for OrderLine {
    fn clone(&self) -> (r: Self)
        ensures
            r == *self,
    {
        OrderLine {
            item_id: self.item_id.clone(),
            name: self.name.clone(),
            unit_price_cents: self.unit_price_cents,
            qty: self.qty,
            fulfillment: self.fulfillment,
        }
    }
}

#[derive(Debug)]
pub struct OrderStatusResponse {
    pub order_id: String,
    pub status: OrderStatus,
    pub total_cents: i64,
    pub email: String,
    pub lines: Vec<OrderLine>,
    pub delivery: Option<Delivery>,
    pub ship_to: Option<ShipTo>,
    pub gift_message: Option<String>,
}

/// Two decimal digits, with a leading zero below ten.
pub open spec fn two_digits(n: nat) -> Seq<char>
    recommends
        n < 100,
{
    seq![digit_char(n / 10), digit_char(n % 10)]
}

/// `3500` -> `"$35.00"`, `-1205` -> `"-$12.05"`.
pub open spec fn cents_text(cents: int) -> Seq<char> {
    let c: nat = if cents < 0 {
        (-cents) as nat
    } else {
        cents as nat
    };
    (if cents < 0 {
        seq!['-']
    } else {
        Seq::<char>::empty()
    }) + seq!['$'] + decimal(c / 100) + seq!['.'] + two_digits(c % 100)
}

/// `3500` -> `"$35.00"`.
pub fn format_cents(cents: i64) -> (r: String)
    requires
        cents != i64::MIN,
    ensures
        r@ == cents_text(cents as int),
{
    let c: u64 = if cents < 0 {
        (-cents) as u64
    } else {
        cents as u64
    };
    let mut out: Vec<char> = Vec::new();
    if cents < 0 {
        out.push('-');
    }
    out.push('$');
    let whole = u64_decimal(c / 100);
    let mut i: usize = 0;
    let ghost start = out@;
    while i < whole.len()
        invariant
            i <= whole.len(),
            out@ == start + whole@.take(i as int),
        decreases whole.len() - i,
    {
        out.push(whole[i]);
        i = i + 1;
        assert(out@ =~= start + whole@.take(i as int));
    }
    assert(whole@.take(whole.len() as int) =~= whole@);
    out.push('.');
    let frac = c % 100;
    out.push((48u8 + (frac / 10) as u8) as char);
    out.push((48u8 + (frac % 10) as u8) as char);
    assert(out@ =~= cents_text(cents as int));
    string_of(&out)
}

} // verus!
