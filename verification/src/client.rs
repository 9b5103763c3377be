//! What the order form and the success page compute: the cart, the request they send, the
//! polling of the order status, and the texts of the confirmation.

use vstd::prelude::*;
use vstd::string::StringExecFns;

use crate::api::{
    CartLine, CatalogItem, CatalogResponse, CheckoutRequest, Delivery, ErrorResponse, FieldError,
    Fulfillment, OrderLine, OrderStatus, OrderStatusResponse, ShipTo,
};
use crate::text::{chars_of, decimal, str_eq, string_of, trim, trim_spec, u64_decimal};
use crate::validate::{
    checkout_computable, checkout_errors, errors_view, opt_view, validate_checkout, MAX_GIFT_MESSAGE,
};

verus! {

/// Either a structured error from the server or a transport problem.
#[derive(Debug)]
pub enum ApiError {
    Server(ErrorResponse),
    Network,
}

pub open spec fn network_message() -> Seq<char> {
    "We couldn't reach the server. Check your connection and try again."@
}

impl ApiError {
    pub fn message(&self) -> (r: String)
        ensures
            r@ == match self {
                ApiError::Server(e) => e.message@,
                ApiError::Network => network_message(),
            },
    {
        match self {
            ApiError::Server(e) => e.message.clone(),
            ApiError::Network => String::from_str(
                "We couldn't reach the server. Check your connection and try again.",
            ),
        }
    }
}

/// An optional text field: trimmed, and `None` when nothing is left.
pub open spec fn opt_spec(s: Seq<char>) -> Option<Seq<char>> {
    if trim_spec(s).len() == 0 {
        None
    } else {
        Some(trim_spec(s))
    }
}

pub fn opt(s: String) -> (r: Option<String>)
    ensures
        opt_view(r) == opt_spec(s@),
{
    let t = trim(s.as_str());
    if t.as_str().is_empty() {
        None
    } else {
        Some(t)
    }
}

// ---------------------------------------------------------------------------------------------
// The cart
// ---------------------------------------------------------------------------------------------

/// The quantity chosen for item `i` (zero when none was).
pub open spec fn qty_at(qtys: Seq<u32>, i: int) -> u32 {
    if 0 <= i < qtys.len() {
        qtys[i]
    } else {
        0
    }
}

/// The sum of price times quantity over the first `n` items.
pub open spec fn cart_total_spec(items: Seq<CatalogItem>, qtys: Seq<u32>, n: nat) -> int
    decreases n,
{
    if n == 0 {
        0
    } else {
        cart_total_spec(items, qtys, (n - 1) as nat) + items[n - 1].price_cents * qty_at(qtys, n - 1)
    }
}

/// Every partial sum of the cart fits in an `i64`.
pub open spec fn cart_total_fits(items: Seq<CatalogItem>, qtys: Seq<u32>) -> bool {
    forall|k: int|
        0 <= k < items.len() ==> {
            &&& i64::MIN <= #[trigger] (items[k].price_cents * qty_at(qtys, k)) <= i64::MAX
            &&& i64::MIN <= cart_total_spec(items, qtys, (k + 1) as nat) <= i64::MAX
        }
}

/// The cart's total in cents.
pub fn cart_total(items: &Vec<CatalogItem>, qtys: &Vec<u32>) -> (r: i64)
    requires
        cart_total_fits(items@, qtys@),
    ensures
        r == cart_total_spec(items@, qtys@, items@.len()),
{
    let mut total: i64 = 0;
    let mut k: usize = 0;
    while k < items.len()
        invariant
            k <= items.len(),
            cart_total_fits(items@, qtys@),
            total == cart_total_spec(items@, qtys@, k as nat),
        decreases items.len() - k,
    {
        let q: u32 = if k < qtys.len() {
            qtys[k]
        } else {
            0
        };
        assert(q == qty_at(qtys@, k as int));
        assert(i64::MIN <= items@[k as int].price_cents * qty_at(qtys@, k as int) <= i64::MAX);
        let p = items[k].price_cents * (q as i64);
        total = total + p;
        k = k + 1;
    }
    total
}

/// Some chosen item (quantity above zero) is fulfilled by `f`.
pub open spec fn cart_needs(items: Seq<CatalogItem>, qtys: Seq<u32>, f: Fulfillment) -> bool {
    exists|i: int| 0 <= i < items.len() && qty_at(qtys, i) > 0 && #[trigger] items[i].fulfillment == f
}

pub fn needs_fulfillment(items: &Vec<CatalogItem>, qtys: &Vec<u32>, f: Fulfillment) -> (r: bool)
    ensures
        r == cart_needs(items@, qtys@, f),
{
    let mut i: usize = 0;
    while i < items.len()
        invariant
            i <= items.len(),
            forall|j: int| 0 <= j < i ==> !(qty_at(qtys@, j) > 0 && #[trigger] items@[j].fulfillment == f),
        decreases items.len() - i,
    {
        let q: u32 = if i < qtys.len() {
            qtys[i]
        } else {
            0
        };
        if q > 0 && items[i].fulfillment == f {
            assert(qty_at(qtys@, i as int) > 0);
            return true;
        }
        i = i + 1;
    }
    false
}

/// The `−` button: one fewer, not below zero.
pub fn decrement_qty(q: u32) -> (r: u32)
    ensures
        r == (if q == 0 {
            0
        } else {
            q - 1
        }),
{
    q.saturating_sub(1)
}

/// The `+` button: one more, up to the item's limit.
pub fn increment_qty(q: u32, max: u32) -> (r: u32)
    ensures
        r == (if q < max {
            q + 1
        } else {
            q as int
        }),
{
    if q < max {
        q + 1
    } else {
        q
    }
}

/// The badge class and text of an item.
pub fn badge(f: Fulfillment) -> (r: (&'static str, &'static str))
    ensures
        f == Fulfillment::ScoutDelivery ==> r.0@ == "badge"@ && r.1@ == "Delivered by our scouts"@,
        f == Fulfillment::DirectShip ==> r.0@ == "badge ship"@ && r.1@ == "Shipped to you"@,
{
    match f {
        Fulfillment::ScoutDelivery => ("badge", "Delivered by our scouts"),
        Fulfillment::DirectShip => ("badge ship", "Shipped to you"),
    }
}

/// What the buyer typed into the order form.
#[derive(Debug)]
pub struct OrderForm {
    pub email: String,
    pub buyer_name: String,
    pub phone: String,
    pub scout_name: String,
    pub street: String,
    pub city: String,
    pub state: String,
    pub zip: String,
    pub notes: String,
    pub ship_name: String,
    pub ship_line1: String,
    pub ship_line2: String,
    pub ship_city: String,
    pub ship_state: String,
    pub ship_zip: String,
    pub gift_message: String,
}

/// The cart lines: one per item with a quantity above zero, in catalog order.
pub open spec fn cart_lines_spec(items: Seq<CatalogItem>, qtys: Seq<u32>, n: nat) -> Seq<(Seq<char>, u32)>
    decreases n,
{
    if n == 0 {
        Seq::empty()
    } else {
        let prev = cart_lines_spec(items, qtys, (n - 1) as nat);
        if qty_at(qtys, n - 1) > 0 {
            prev.push((items[n - 1].id@, qty_at(qtys, n - 1)))
        } else {
            prev
        }
    }
}

pub open spec fn cart_lines_view(v: Seq<CartLine>) -> Seq<(Seq<char>, u32)> {
    v.map_values(|l: CartLine| (l.item_id@, l.qty))
}

fn cart_lines(items: &Vec<CatalogItem>, qtys: &Vec<u32>) -> (r: Vec<CartLine>)
    ensures
        cart_lines_view(r@) == cart_lines_spec(items@, qtys@, items@.len()),
{
    let mut r: Vec<CartLine> = Vec::new();
    let mut i: usize = 0;
    while i < items.len()
        invariant
            i <= items.len(),
            cart_lines_view(r@) == cart_lines_spec(items@, qtys@, i as nat),
        decreases items.len() - i,
    {
        let q: u32 = if i < qtys.len() {
            qtys[i]
        } else {
            0
        };
        let ghost before = r@;
        if q > 0 {
            r.push(CartLine { item_id: items[i].id.clone(), qty: q });
            assert(cart_lines_view(r@) =~= cart_lines_view(before).push((items@[i as int].id@, q)));
        }
        i = i + 1;
    }
    r
}

/// The request the form sends: the chosen lines, the contact fields as typed, the delivery
/// address only for scout-delivery items, and the shipping address and gift message only
/// for direct-ship items (optional fields trimmed, empty ones left out).
pub fn build_request(items: &Vec<CatalogItem>, qtys: &Vec<u32>, form: &OrderForm) -> (r: CheckoutRequest)
    ensures
        cart_lines_view(r.lines@) == cart_lines_spec(items@, qtys@, items@.len()),
        r.email == form.email,
        r.buyer_name == form.buyer_name,
        r.phone == form.phone,
        opt_view(r.scout_name) == opt_spec(form.scout_name@),
        cart_needs(items@, qtys@, Fulfillment::ScoutDelivery) <==> r.delivery is Some,
        r.delivery matches Some(d) ==> {
            &&& d.street == form.street
            &&& d.city == form.city
            &&& d.state == form.state
            &&& d.zip == form.zip
            &&& opt_view(d.notes) == opt_spec(form.notes@)
        },
        cart_needs(items@, qtys@, Fulfillment::DirectShip) <==> r.shipping is Some,
        r.shipping matches Some(s) ==> {
            &&& s.name == form.ship_name
            &&& s.line1 == form.ship_line1
            &&& opt_view(s.line2) == opt_spec(form.ship_line2@)
            &&& s.city == form.ship_city
            &&& s.state == form.ship_state
            &&& s.postal_code == form.ship_zip
        },
        opt_view(r.gift_message) == (if cart_needs(items@, qtys@, Fulfillment::DirectShip) {
            opt_spec(form.gift_message@)
        } else {
            None
        }),
{
    let delivery = if needs_fulfillment(items, qtys, Fulfillment::ScoutDelivery) {
        Some(
            Delivery {
                street: form.street.clone(),
                city: form.city.clone(),
                state: form.state.clone(),
                zip: form.zip.clone(),
                notes: opt(form.notes.clone()),
            },
        )
    } else {
        None
    };
    let shipping_needed = needs_fulfillment(items, qtys, Fulfillment::DirectShip);
    let shipping = if shipping_needed {
        Some(
            ShipTo {
                name: form.ship_name.clone(),
                line1: form.ship_line1.clone(),
                line2: opt(form.ship_line2.clone()),
                city: form.ship_city.clone(),
                state: form.ship_state.clone(),
                postal_code: form.ship_zip.clone(),
            },
        )
    } else {
        None
    };
    let gift_message = if shipping_needed {
        opt(form.gift_message.clone())
    } else {
        None
    };
    CheckoutRequest {
        lines: cart_lines(items, qtys),
        email: form.email.clone(),
        buyer_name: form.buyer_name.clone(),
        phone: form.phone.clone(),
        scout_name: opt(form.scout_name.clone()),
        delivery,
        shipping,
        gift_message,
    }
}

/// `2 × Wreath`.
pub open spec fn qty_label(qty: u32, name: Seq<char>) -> Seq<char> {
    decimal(qty as nat) + " × "@ + name
}

pub fn line_label(qty: u32, name: &str) -> (r: String)
    ensures
        r@ == qty_label(qty, name@),
{
    let mut r = string_of(&u64_decimal(qty as u64));
    r.append(" × ");
    r.append(name);
    r
}

/// `7 of 20 characters`, counting characters, not bytes.
pub fn gift_hint(gift: &str) -> (r: String)
    ensures
        r@ == decimal(gift@.len()) + " of "@ + decimal(MAX_GIFT_MESSAGE as nat) + " characters"@,
{
    let n = chars_of(gift).len();
    let mut r = string_of(&u64_decimal(n as u64));
    r.append(" of ");
    r.append(string_of(&u64_decimal(MAX_GIFT_MESSAGE as u64)).as_str());
    r.append(" characters");
    r
}

// ---------------------------------------------------------------------------------------------
// The success page
// ---------------------------------------------------------------------------------------------

/// How many more times a pending order is polled (two seconds apart).
pub const MAX_EXTRA_POLLS: u32 = 6;

/// Whether to poll again after `polls_done` extra polls: only while the order is still
/// pending.
pub fn poll_again(polls_done: u32, last: &Result<OrderStatusResponse, ApiError>) -> (r: bool)
    ensures
        r == (polls_done < MAX_EXTRA_POLLS && (last matches Ok(s) && s.status == OrderStatus::Pending)),
{
    if polls_done >= MAX_EXTRA_POLLS {
        return false;
    }
    match last {
        Ok(s) => s.status == OrderStatus::Pending,
        Err(_) => false,
    }
}

/// The page shown for the final poll.
#[derive(Debug, Clone, Copy, PartialEq, Eq, Structural)]
pub enum SuccessPage {
    /// "We couldn't load your order".
    LoadFailed,
    /// The confirmation summary (paid orders only).
    Confirmation,
    /// "Thank you — we received your payment", with a manual check pending.
    NeedsReview,
    /// "Still confirming your payment".
    StillPending,
    /// "This order wasn't completed".
    NotCompleted,
}

pub fn success_page(r: &Result<OrderStatusResponse, ApiError>) -> (p: SuccessPage)
    ensures
        p == match r {
            Err(_) => SuccessPage::LoadFailed,
            Ok(s) => match s.status {
                OrderStatus::Paid => SuccessPage::Confirmation,
                OrderStatus::NeedsReview => SuccessPage::NeedsReview,
                OrderStatus::Pending => SuccessPage::StillPending,
                OrderStatus::Expired => SuccessPage::NotCompleted,
                OrderStatus::Failed => SuccessPage::NotCompleted,
            },
        },
{
    match r {
        Err(_) => SuccessPage::LoadFailed,
        Ok(s) => match s.status {
            OrderStatus::Paid => SuccessPage::Confirmation,
            OrderStatus::NeedsReview => SuccessPage::NeedsReview,
            OrderStatus::Pending => SuccessPage::StillPending,
            OrderStatus::Expired => SuccessPage::NotCompleted,
            OrderStatus::Failed => SuccessPage::NotCompleted,
        },
    }
}

/// The page polls only with both an order id and a session id in its URL.
pub fn can_poll(order: &str, session_id: &str) -> (r: bool)
    ensures
        r == (order@.len() > 0 && session_id@.len() > 0),
{
    !order.is_empty() && !session_id.is_empty()
}

/// Some line of the order is fulfilled by `f`.
pub fn has_lines(lines: &Vec<OrderLine>, f: Fulfillment) -> (r: bool)
    ensures
        r == exists|i: int| 0 <= i < lines@.len() && #[trigger] lines@[i].fulfillment == f,
{
    let mut i: usize = 0;
    while i < lines.len()
        invariant
            i <= lines.len(),
            forall|j: int| 0 <= j < i ==> #[trigger] lines@[j].fulfillment != f,
        decreases lines.len() - i,
    {
        if lines[i].fulfillment == f {
            return true;
        }
        i = i + 1;
    }
    false
}

/// `1 Main St, Cleveland, OH 44101`.
pub fn delivery_line(d: &Delivery) -> (r: String)
    ensures
        r@ == d.street@ + ", "@ + d.city@ + ", "@ + d.state@ + " "@ + d.zip@,
{
    let mut r = d.street.clone();
    r.append(", ");
    r.append(d.city.as_str());
    r.append(", ");
    r.append(d.state.as_str());
    r.append(" ");
    r.append(d.zip.as_str());
    r
}

/// `To: Sam Jones, 9 Elm St, Apt 2, Akron, OH 44301`.
pub fn ship_to_line(s: &ShipTo) -> (r: String)
    ensures
        r@ == "To: "@ + s.name@ + ", "@ + s.line1@ + (match s.line2 {
            Some(l) => ", "@ + l@,
            None => Seq::empty(),
        }) + ", "@ + s.city@ + ", "@ + s.state@ + " "@ + s.postal_code@,
{
    let mut r = String::from_str("To: ");
    r.append(s.name.as_str());
    r.append(", ");
    r.append(s.line1.as_str());
    let ghost before = r@;
    match &s.line2 {
        Some(l) => {
            r.append(", ");
            r.append(l.as_str());
        },
        None => {
            assert(before + Seq::<char>::empty() =~= before);
        },
    }
    r.append(", ");
    r.append(s.city.as_str());
    r.append(", ");
    r.append(s.state.as_str());
    r.append(" ");
    r.append(s.postal_code.as_str());
    r
}

/// `Gift message: “Merry Christmas!”`.
pub fn gift_line(m: &str) -> (r: String)
    ensures
        r@ == "Gift message: “"@ + m@ + "”"@,
{
    let mut r = String::from_str("Gift message: “");
    r.append(m);
    r.append("”");
    r
}

// ---------------------------------------------------------------------------------------------
// Submitting the form
// ---------------------------------------------------------------------------------------------

pub open spec fn first_error_spec(errors: Seq<(Seq<char>, Seq<char>)>, field: Seq<char>) -> Option<Seq<char>>
    decreases errors.len(),
{
    if errors.len() == 0 {
        None
    } else if errors[0].0 == field {
        Some(errors[0].1)
    } else {
        first_error_spec(errors.drop_first(), field)
    }
}

/// The message shown under a field: the first error reported for it.
pub fn first_error(errors: &Vec<FieldError>, field: &str) -> (r: Option<String>)
    ensures
        opt_view(r) == first_error_spec(errors_view(errors@), field@),
{
    let ghost ev = errors_view(errors@);
    let mut i: usize = 0;
    assert(ev.skip(0) =~= ev);
    while i < errors.len()
        invariant
            i <= errors.len(),
            ev == errors_view(errors@),
            first_error_spec(ev, field@) == first_error_spec(ev.skip(i as int), field@),
        decreases errors.len() - i,
    {
        let ghost rest = ev.skip(i as int);
        assert(rest.drop_first() =~= ev.skip(i + 1));
        assert(rest[0] == (errors@[i as int].field@, errors@[i as int].message@));
        if str_eq(errors[i].field.as_str(), field) {
            return Some(errors[i].message.clone());
        }
        i = i + 1;
    }
    assert(ev.skip(errors.len() as int).len() == 0);
    None
}

/// What the form shows before sending: nothing when the request passes the same checks the
/// server makes, otherwise the banner and the field errors.
pub fn check_before_submit(req: &CheckoutRequest, catalog: &CatalogResponse) -> (r: Option<(String, Vec<FieldError>)>)
    requires
        checkout_computable(*req, *catalog),
    ensures
        r is None <==> checkout_errors(*req, *catalog).len() == 0,
        r matches Some(p) ==> p.0@ == "Please fix the highlighted fields."@ && errors_view(p.1@)
            == checkout_errors(*req, *catalog),
{
    match validate_checkout(req, catalog) {
        Ok(_) => None,
        Err(errs) => Some((String::from_str("Please fix the highlighted fields."), errs)),
    }
}

/// After a refused submission: the field errors the server reported (none for a transport
/// problem) and the banner.
pub fn after_refusal(e: &ApiError) -> (r: (Option<Vec<FieldError>>, String))
    ensures
        match e {
            ApiError::Server(s) => (r.0 matches Some(f) && f@ == s.fields@) && r.1@ == s.message@,
            ApiError::Network => r.0 is None && r.1@ == network_message(),
        },
{
    let fields = match e {
        ApiError::Server(s) => Some(clone_field_errors(&s.fields)),
        ApiError::Network => None,
    };
    (fields, e.message())
}

fn clone_field_errors(v: &Vec<FieldError>) -> (r: Vec<FieldError>)
    ensures
        r@ == v@,
{
    let mut r: Vec<FieldError> = Vec::new();
    let mut i: usize = 0;
    while i < v.len()
        invariant
            i <= v.len(),
            r@ == v@.take(i as int),
        decreases v.len() - i,
    {
        r.push(FieldError { field: v[i].field.clone(), message: v[i].message.clone() });
        i = i + 1;
        assert(r@ =~= v@.take(i as int));
    }
    assert(v@.take(v.len() as int) =~= v@);
    r
}

// ---------------------------------------------------------------------------------------------
// Reading answers and choosing the shop page
// ---------------------------------------------------------------------------------------------

/// What a call to the server gives: for a success status, the decoded body (a body that does
/// not decode counts as a transport problem); otherwise the server's error, when it decodes.
pub fn response_outcome<T>(ok: bool, body: Option<T>, error: Option<ErrorResponse>) -> (r: Result<T, ApiError>)
    ensures
        ok ==> match body {
            Some(b) => r == Ok::<T, ApiError>(b),
            None => r matches Err(ApiError::Network),
        },
        !ok ==> match error {
            Some(e) => r == Err::<T, ApiError>(ApiError::Server(e)),
            None => r matches Err(ApiError::Network),
        },
{
    if ok {
        match body {
            Some(b) => Ok(b),
            None => Err(ApiError::Network),
        }
    } else {
        match error {
            Some(e) => Err(ApiError::Server(e)),
            None => Err(ApiError::Network),
        }
    }
}

/// The shop's page: the order form while orders are open, the closed notice after the
/// cutoff, or a banner when the catalog could not be loaded.
#[derive(Debug, Clone, Copy, PartialEq, Eq, Structural)]
pub enum ShopPage {
    OrderForm,
    Closed,
    LoadFailed,
}

pub fn shop_page(r: &Result<CatalogResponse, ApiError>) -> (p: ShopPage)
    ensures
        p == match r {
            Ok(c) => if c.open {
                ShopPage::OrderForm
            } else {
                ShopPage::Closed
            },
            Err(_) => ShopPage::LoadFailed,
        },
{
    match r {
        Ok(c) => if c.open {
            ShopPage::OrderForm
        } else {
            ShopPage::Closed
        },
        Err(_) => ShopPage::LoadFailed,
    }
}

// ---------------------------------------------------------------------------------------------
// What the cart lines are
// ---------------------------------------------------------------------------------------------

/// How many of the first `n` items were given a quantity above zero.
pub open spec fn chosen_count(qtys: Seq<u32>, n: nat) -> nat
    decreases n,
{
    if n == 0 {
        0
    } else {
        chosen_count(qtys, (n - 1) as nat) + if n - 1 < qtys.len() && qtys[n - 1] > 0 {
            1nat
        } else {
            0nat
        }
    }
}

/// `x` is the id and quantity of one of the first `n` items, given a quantity above zero.
pub open spec fn is_chosen_item(
    items: Seq<CatalogItem>,
    qtys: Seq<u32>,
    n: int,
    x: (Seq<char>, u32),
) -> bool {
    exists|i: int|
        #![trigger items[i]]
        0 <= i < n && i < qtys.len() && qtys[i] > 0 && x == (items[i].id@, qtys[i])
}

proof fn lemma_cart_lines_prefix(items: Seq<CatalogItem>, qtys: Seq<u32>, n: nat)
    requires
        n <= items.len(),
    ensures
        forall|i: int|
            0 <= i < n && i < qtys.len() && qtys[i] > 0 ==> cart_lines_spec(items, qtys, n).contains(
                (#[trigger] items[i].id@, qtys[i]),
            ),
        forall|j: int|
            0 <= j < cart_lines_spec(items, qtys, n).len() ==> is_chosen_item(
                items,
                qtys,
                n as int,
                #[trigger] cart_lines_spec(items, qtys, n)[j],
            ),
        cart_lines_spec(items, qtys, n).len() == chosen_count(qtys, n),
    decreases n,
{
    if n > 0 {
        lemma_cart_lines_prefix(items, qtys, (n - 1) as nat);
        let prev = cart_lines_spec(items, qtys, (n - 1) as nat);
        let l = cart_lines_spec(items, qtys, n);
        let k = n - 1;
        assert forall|j: int| 0 <= j < prev.len() implies is_chosen_item(
            items,
            qtys,
            n as int,
            #[trigger] prev[j],
        ) by {
            assert(is_chosen_item(items, qtys, k, prev[j]));
            let w = choose|w: int|
                #![trigger items[w]]
                0 <= w < k && w < qtys.len() && qtys[w] > 0 && prev[j] == (items[w].id@, qtys[w]);
            assert(items[w] == items[w]);
        }
        if qty_at(qtys, k) > 0 {
            assert(l == prev.push((items[k].id@, qtys[k])));
            assert forall|i: int|
                0 <= i < n && i < qtys.len() && qtys[i] > 0 implies l.contains(
                (#[trigger] items[i].id@, qtys[i]),
            ) by {
                if i < k {
                    assert(prev.contains((items[i].id@, qtys[i])));
                    let w = choose|w: int| 0 <= w < prev.len() && prev[w] == (items[i].id@, qtys[i]);
                    assert(l[w] == prev[w]);
                } else {
                    assert(l[prev.len() as int] == (items[i].id@, qtys[i]));
                }
            }
            assert forall|j: int| 0 <= j < l.len() implies is_chosen_item(
                items,
                qtys,
                n as int,
                #[trigger] l[j],
            ) by {
                if j < prev.len() {
                    assert(l[j] == prev[j]);
                } else {
                    assert(l[j] == (items[k].id@, qtys[k]));
                    assert(items[k] == items[k]);
                }
            }
        } else {
            assert(l == prev);
            assert forall|i: int|
                0 <= i < n && i < qtys.len() && qtys[i] > 0 implies l.contains(
                (#[trigger] items[i].id@, qtys[i]),
            ) by {
                assert(i < k);
            }
        }
    }
}

/// The lines the form sends are the chosen items: every item given a quantity above zero
/// appears as a line with its id and that quantity, every line is such an item, and there
/// are exactly as many lines as chosen items.
pub proof fn lemma_cart_lines_are_chosen_items(items: Seq<CatalogItem>, qtys: Seq<u32>)
    ensures
        forall|i: int|
            0 <= i < items.len() && i < qtys.len() && qtys[i] > 0 ==> cart_lines_spec(
                items,
                qtys,
                items.len(),
            ).contains((#[trigger] items[i].id@, qtys[i])),
        forall|j: int|
            0 <= j < cart_lines_spec(items, qtys, items.len()).len() ==> is_chosen_item(
                items,
                qtys,
                items.len() as int,
                #[trigger] cart_lines_spec(items, qtys, items.len())[j],
            ),
        cart_lines_spec(items, qtys, items.len()).len() == chosen_count(qtys, items.len()),
{
    lemma_cart_lines_prefix(items, qtys, items.len());
}

} // verus!
