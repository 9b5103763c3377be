//! What the HTTP handlers decide: checkout, the order status poll, the Stripe webhook, rate
//! limiting and cache headers. The caller does the HTTP, database and Stripe work.

use vstd::prelude::*;
use vstd::string::StringExecFns;

use crate::api::{
    CheckoutRequest, CheckoutResponse, ErrorResponse, OrderStatus, OrderStatusResponse,
};
use crate::catalog::Catalog;
use crate::config::has_prefix;
use crate::orders::OrderRow;
use crate::ratelimit::{allow_spec, RateLimiter};
use crate::stripe::{
    json_parses, json_text, json_text_at, json_valid, session_at, signature_valid, text_or_empty,
    timestamp_fits, verify_signature, CreatedSession, SessionInfo, SessionLine, SessionRequest,
};
use crate::text::{
    chars_of, chars_start_with, concat2, split_chars, split_spec, str_eq, string_of, trim_chars,
    trim_spec,
};
use crate::time::{not_after, Timestamp};
use crate::validate::{
    checkout_computable, checkout_errors, errors_view, lemma_same_catalog,
    lemma_total_is_sum_of_lines, opt_view, order_matches, valid_lines_sum, validate_checkout,
    ValidLine, ValidatedOrder,
};

verus! {

/// A Checkout Session expires 30 minutes after it is created.
pub const SESSION_TTL_SECS: i64 = 1800;

pub const WEBHOOK_TOLERANCE_SECS: i64 = 300;

/// An error answer: the HTTP status and the JSON body.
#[derive(Debug)]
pub struct ApiError {
    pub status: u16,
    pub body: ErrorResponse,
}

pub open spec fn error_is(e: ApiError, status: u16, code: Seq<char>, message: Seq<char>) -> bool {
    &&& e.status == status
    &&& e.body.code@ == code
    &&& e.body.message@ == message
    &&& e.body.fields@.len() == 0
}

impl ApiError {
    pub fn new(status: u16, code: &str, message: &str) -> (e: ApiError)
        ensures
            error_is(e, status, code@, message@),
    {
        ApiError {
            status,
            body: ErrorResponse {
                code: String::from_str(code),
                message: String::from_str(message),
                fields: Vec::new(),
            },
        }
    }

    pub fn not_found() -> (e: ApiError)
        ensures
            error_is(e, 404, "not_found"@, "Not found."@),
    {
        ApiError::new(404, "not_found", "Not found.")
    }

    /// The answer to a failure on our side (a database or transport error).
    pub fn internal() -> (e: ApiError)
        ensures
            error_is(e, 500, "internal"@, "Something went wrong. Please try again."@),
    {
        ApiError::new(500, "internal", "Something went wrong. Please try again.")
    }
}

/// Where static files live.
#[derive(Debug)]
pub struct StaticDirs {
    /// Contains `images/`.
    pub static_dir: String,
    /// The built order form (`index.html`, wasm, js, css).
    pub frontend_dir: String,
}

// ---------------------------------------------------------------------------------------------
// Checkout
// ---------------------------------------------------------------------------------------------

pub open spec fn closed_message() -> Seq<char> {
    "Orders are closed. Thank you for your support!"@
}

pub open spec fn invalid_message() -> Seq<char> {
    "Please fix the highlighted fields."@
}

/// Refuses orders after the cutoff and checks the request against the catalog.
pub fn checkout_validate(catalog: &Catalog, req: &CheckoutRequest, now: Timestamp) -> (r: Result<
    ValidatedOrder,
    ApiError,
>)
    requires
        not_after(now, catalog.cutoff()) ==> checkout_computable(*req, catalog.response()),
    ensures
        !not_after(now, catalog.cutoff()) ==> (r matches Err(e) && error_is(
            e,
            409,
            "closed"@,
            closed_message(),
        )),
        not_after(now, catalog.cutoff()) ==> match r {
            Ok(o) => checkout_errors(*req, catalog.response()).len() == 0 && order_matches(
                o,
                *req,
                catalog.response(),
            ),
            Err(e) => {
                &&& e.status == 422
                &&& e.body.code@ == "invalid"@
                &&& e.body.message@ == invalid_message()
                &&& errors_view(e.body.fields@) == checkout_errors(*req, catalog.response())
                &&& checkout_errors(*req, catalog.response()).len() > 0
            },
        },
{
    if !catalog.is_open(now) {
        return Err(ApiError::new(409, "closed", "Orders are closed. Thank you for your support!"));
    }
    let view = catalog.view(now);
    proof {
        lemma_same_catalog(*req, view, catalog.response());
    }
    match validate_checkout(req, &view) {
        Ok(o) => Ok(o),
        Err(fields) => Err(
            ApiError {
                status: 422,
                body: ErrorResponse {
                    code: String::from_str("invalid"),
                    message: String::from_str("Please fix the highlighted fields."),
                    fields,
                },
            },
        ),
    }
}

/// A session line for an order line; images only when Stripe can fetch them (an `https`
/// base URL).
pub open spec fn session_line_matches(sl: SessionLine, l: ValidLine, base_url: Seq<char>) -> bool {
    &&& sl.name@ == l.name@
    &&& sl.unit_amount == l.unit_price_cents
    &&& sl.qty == l.qty
    &&& opt_view(sl.image_url) == (if has_prefix(base_url, "https://"@) {
        Some(base_url + l.image_url@)
    } else {
        None
    })
}

/// The Checkout Session asked for an order.
pub open spec fn session_request_matches(
    r: SessionRequest,
    base_url: Seq<char>,
    order_id: Seq<char>,
    o: ValidatedOrder,
    now: Timestamp,
) -> bool {
    &&& r.order_id@ == order_id
    &&& r.email@ == o.email@
    &&& r.lines@.len() == o.lines@.len()
    &&& forall|i: int|
        0 <= i < o.lines@.len() ==> session_line_matches(#[trigger] r.lines@[i], o.lines@[i], base_url)
    &&& r.success_url@ == base_url + "/success?order="@ + order_id
        + "&session_id={CHECKOUT_SESSION_ID}"@
    &&& r.cancel_url@ == base_url + "/cancel?order="@ + order_id
    &&& r.expires_at == now.secs + SESSION_TTL_SECS
}

fn starts_with_str(s: &str, prefix: &str) -> (r: bool)
    ensures
        r == has_prefix(s@, prefix@),
{
    let a = chars_of(s);
    let b = chars_of(prefix);
    chars_start_with(&a, &b)
}

/// The Checkout Session for an order: its lines at the catalog's prices, the return URLs
/// and an expiry 30 minutes from now.
pub fn session_request(base_url: &str, order_id: &str, order: &ValidatedOrder, now: Timestamp) -> (r:
    SessionRequest)
    requires
        now.secs + SESSION_TTL_SECS <= i64::MAX,
    ensures
        session_request_matches(r, base_url@, order_id@, *order, now),
{
    let public_images = starts_with_str(base_url, "https://");
    let mut lines: Vec<SessionLine> = Vec::new();
    let mut i: usize = 0;
    while i < order.lines.len()
        invariant
            i <= order.lines.len(),
            public_images == has_prefix(base_url@, "https://"@),
            lines@.len() == i,
            forall|j: int|
                0 <= j < i ==> session_line_matches(#[trigger] lines@[j], order.lines@[j], base_url@),
        decreases order.lines.len() - i,
    {
        let l = &order.lines[i];
        let image_url = if public_images {
            Some(concat2(base_url, l.image_url.as_str()))
        } else {
            None
        };
        lines.push(SessionLine { name: l.name.clone(), unit_amount: l.unit_price_cents, qty: l.qty, image_url });
        i = i + 1;
    }
    let mut success_url = concat2(base_url, "/success?order=");
    success_url.append(order_id);
    success_url.append("&session_id={CHECKOUT_SESSION_ID}");
    let mut cancel_url = concat2(base_url, "/cancel?order=");
    cancel_url.append(order_id);
    SessionRequest {
        order_id: String::from_str(order_id),
        email: order.email.clone(),
        lines,
        success_url,
        cancel_url,
        expires_at: now.secs + SESSION_TTL_SECS,
    }
}

/// What the session asks Stripe to charge: unit amount times quantity, summed.
pub open spec fn session_amount(lines: Seq<SessionLine>) -> int
    decreases lines.len(),
{
    if lines.len() == 0 {
        0
    } else {
        session_amount(lines.drop_last()) + lines.last().unit_amount * lines.last().qty
    }
}

proof fn lemma_session_amount(sl: Seq<SessionLine>, ol: Seq<ValidLine>, base_url: Seq<char>)
    requires
        sl.len() == ol.len(),
        forall|i: int| 0 <= i < ol.len() ==> session_line_matches(#[trigger] sl[i], ol[i], base_url),
    ensures
        session_amount(sl) == valid_lines_sum(ol),
    decreases sl.len(),
{
    if sl.len() > 0 {
        let a = sl.drop_last();
        let b = ol.drop_last();
        assert forall|i: int| 0 <= i < b.len() implies session_line_matches(
            #[trigger] a[i],
            b[i],
            base_url,
        ) by {
            assert(a[i] == sl[i] && b[i] == ol[i]);
        }
        lemma_session_amount(a, b, base_url);
        assert(session_line_matches(sl[sl.len() - 1], ol[ol.len() - 1], base_url));
    }
}

/// Prices are never taken from the client: what the session charges is the order's total,
/// computed from the catalog.
pub proof fn lemma_session_charges_order_total(
    r: SessionRequest,
    base_url: Seq<char>,
    order_id: Seq<char>,
    o: ValidatedOrder,
    now: Timestamp,
    req: CheckoutRequest,
    cat: crate::api::CatalogResponse,
)
    requires
        session_request_matches(r, base_url, order_id, o, now),
        order_matches(o, req, cat),
    ensures
        session_amount(r.lines@) == o.total_cents,
{
    lemma_session_amount(r.lines@, o.lines@, base_url);
    lemma_total_is_sum_of_lines(req, cat.items@, cat.items@.len());
}

/// The hyphenated form of a UUID: 36 characters, `-` at 8, 13, 18 and 23, lowercase hex
/// digits elsewhere.
pub open spec fn uuid_shaped(s: Seq<char>) -> bool {
    &&& s.len() == 36
    &&& forall|i: int|
        0 <= i < 36 ==> if i == 8 || i == 13 || i == 18 || i == 23 {
            #[trigger] s[i] == '-'
        } else {
            ('0' <= s[i] && s[i] <= '9') || ('a' <= s[i] && s[i] <= 'f')
        }
}

/// A fresh order id: `uuid::Uuid::new_v4().to_string()`. Trusted: the id is random, so
/// only its shape is stated, the crate's hyphenated lowercase form.
#[verifier::external_body]
fn new_order_id() -> (r: String)
    ensures
        uuid_shaped(r@),
{
    uuid::Uuid::new_v4().to_string()
}

/// A checkout that passed the checks: the order to store as `pending` and the session to
/// ask Stripe for.
#[derive(Debug)]
pub struct CheckoutPlan {
    pub order_id: String,
    pub order: ValidatedOrder,
    pub session: SessionRequest,
}

/// The checkout up to the Stripe call: the checks, a new order id, and the session request.
pub fn checkout_plan(catalog: &Catalog, req: &CheckoutRequest, now: Timestamp, base_url: &str) -> (r:
    Result<CheckoutPlan, ApiError>)
    requires
        not_after(now, catalog.cutoff()) ==> checkout_computable(*req, catalog.response()),
        now.secs + SESSION_TTL_SECS <= i64::MAX,
    ensures
        !not_after(now, catalog.cutoff()) ==> (r matches Err(e) && error_is(
            e,
            409,
            "closed"@,
            closed_message(),
        )),
        not_after(now, catalog.cutoff()) ==> match r {
            Ok(p) => {
                &&& checkout_errors(*req, catalog.response()).len() == 0
                &&& order_matches(p.order, *req, catalog.response())
                &&& uuid_shaped(p.order_id@)
                &&& session_request_matches(p.session, base_url@, p.order_id@, p.order, now)
            },
            Err(e) => {
                &&& e.status == 422
                &&& e.body.code@ == "invalid"@
                &&& e.body.message@ == invalid_message()
                &&& errors_view(e.body.fields@) == checkout_errors(*req, catalog.response())
                &&& checkout_errors(*req, catalog.response()).len() > 0
            },
        },
{
    let order = match checkout_validate(catalog, req, now) {
        Ok(o) => o,
        Err(e) => {
            return Err(e);
        },
    };
    let order_id = new_order_id();
    let session = session_request(base_url, order_id.as_str(), &order, now);
    Ok(CheckoutPlan { order_id, order, session })
}

pub open spec fn payment_unavailable_message() -> Seq<char> {
    "We couldn't start the payment page. Please try again in a moment."@
}

/// The answer once Stripe was asked for the session: its URL, or 502 when the call failed
/// (the order is then marked failed).
pub fn checkout_finish(created: Option<CreatedSession>) -> (r: Result<CheckoutResponse, ApiError>)
    ensures
        match created {
            Some(s) => r matches Ok(resp) && resp.checkout_url == s.url,
            None => r matches Err(e) && error_is(
                e,
                502,
                "payment_unavailable"@,
                payment_unavailable_message(),
            ),
        },
{
    match created {
        Some(s) => Ok(CheckoutResponse { checkout_url: s.url }),
        None => Err(
            ApiError::new(
                502,
                "payment_unavailable",
                "We couldn't start the payment page. Please try again in a moment.",
            ),
        ),
    }
}

// ---------------------------------------------------------------------------------------------
// The order status poll
// ---------------------------------------------------------------------------------------------

/// The order named in the URL, when the poll names its Checkout Session; 404 otherwise (an
/// unknown order looks the same as a wrong session).
pub fn status_lookup(order: Option<OrderRow>, session_id: &str) -> (r: Result<OrderRow, ApiError>)
    ensures
        match order {
            Some(o) => if opt_view(o.stripe_session_id) == Some(session_id@) {
                r == Ok::<OrderRow, ApiError>(o)
            } else {
                r matches Err(e) && error_is(e, 404, "not_found"@, "Not found."@)
            },
            None => r matches Err(e) && error_is(e, 404, "not_found"@, "Not found."@),
        },
{
    match order {
        Some(o) => {
            let matches = match &o.stripe_session_id {
                Some(s) => str_eq(s.as_str(), session_id),
                None => false,
            };
            if matches {
                Ok(o)
            } else {
                Err(ApiError::not_found())
            }
        },
        None => Err(ApiError::not_found()),
    }
}

/// A pending order is checked with Stripe directly, in case the webhook is late.
pub fn needs_reconcile(o: &OrderRow) -> (r: bool)
    ensures
        r == (o.status == OrderStatus::Pending),
{
    o.status == OrderStatus::Pending
}

/// The poll's answer for an order.
pub fn status_response(o: OrderRow) -> (r: OrderStatusResponse)
    ensures
        r.order_id == o.id,
        r.status == o.status,
        r.total_cents == o.total_cents,
        r.email == o.email,
        r.lines == o.lines,
        r.delivery == o.delivery,
        r.ship_to == o.ship_to,
        r.gift_message == o.gift_message,
{
    OrderStatusResponse {
        order_id: o.id,
        status: o.status,
        total_cents: o.total_cents,
        email: o.email,
        lines: o.lines,
        delivery: o.delivery,
        ship_to: o.ship_to,
        gift_message: o.gift_message,
    }
}

/// What a session fetched from Stripe does to its order.
#[derive(Debug)]
pub enum ReconcileAction {
    /// Apply the paid session (without an event).
    MarkPaid,
    /// Expire this order if it is still pending.
    Expire { order_id: String },
    Nothing,
}

/// A paid session is applied; an expired one expires its order; anything else waits.
pub fn reconcile_action(s: &SessionInfo) -> (r: ReconcileAction)
    ensures
        s.payment_status@ == "paid"@ ==> r is MarkPaid,
        s.payment_status@ != "paid"@ && s.status@ == "expired"@ ==> match s.order_id {
            Some(id) => r matches ReconcileAction::Expire { order_id } && order_id == id,
            None => r is Nothing,
        },
        s.payment_status@ != "paid"@ && s.status@ != "expired"@ ==> r is Nothing,
{
    if str_eq(s.payment_status.as_str(), "paid") {
        ReconcileAction::MarkPaid
    } else if str_eq(s.status.as_str(), "expired") {
        match &s.order_id {
            Some(id) => ReconcileAction::Expire { order_id: id.clone() },
            None => ReconcileAction::Nothing,
        }
    } else {
        ReconcileAction::Nothing
    }
}

// ---------------------------------------------------------------------------------------------
// The webhook
// ---------------------------------------------------------------------------------------------

/// What a verified webhook event does.
#[derive(Debug)]
pub enum WebhookAction {
    /// Apply the paid session, recording the event.
    Paid { event_id: String, kind: String, session: SessionInfo },
    /// Expire the order if it is still pending, recording the event.
    Expired { event_id: String, kind: String, order_id: String },
    /// Answer 200 and do nothing.
    Ignore,
}

pub open spec fn is_paid_kind(kind: Seq<char>) -> bool {
    kind == "checkout.session.completed"@ || kind == "checkout.session.async_payment_succeeded"@
}

pub open spec fn object_text(doc: Seq<u8>, field: Seq<char>) -> Option<Seq<char>> {
    json_text_at(doc, "/data/object"@ + field)
}

/// The order id of the event's session object: `client_reference_id`, else
/// `metadata.order_id`.
pub open spec fn object_order_id(doc: Seq<u8>) -> Option<Seq<char>> {
    if object_text(doc, "/client_reference_id"@) is Some {
        object_text(doc, "/client_reference_id"@)
    } else {
        object_text(doc, "/metadata/order_id"@)
    }
}

pub open spec fn payload_error(e: ApiError) -> bool {
    error_is(e, 400, "bad_payload"@, "Invalid payload."@)
}

/// What the webhook does with a request: a bad signature or an unreadable event is refused
/// with 400; a paid session (`checkout.session.completed` or
/// `checkout.session.async_payment_succeeded` with `payment_status` `paid`) is applied; an
/// expired session expires its order; every other event is acknowledged and ignored.
pub open spec fn webhook_ok(r: Result<WebhookAction, ApiError>, secret: Seq<char>, signature: Seq<char>, doc: Seq<u8>, now: i64) -> bool {
    if !signature_valid(secret, signature, doc, now, WEBHOOK_TOLERANCE_SECS) {
        r matches Err(e) && error_is(e, 400, "bad_signature"@, "Invalid signature."@)
    } else if !json_valid(doc) || json_text_at(doc, "/id"@) is None || json_text_at(doc, "/type"@) is None {
        r matches Err(e) && payload_error(e)
    } else {
        let event_id = json_text_at(doc, "/id"@)->0;
        let kind = json_text_at(doc, "/type"@)->0;
        if is_paid_kind(kind) {
            if object_text(doc, "/id"@) is None {
                r matches Err(e) && payload_error(e)
            } else if text_or_empty(object_text(doc, "/payment_status"@)) == "paid"@ {
                r matches Ok(WebhookAction::Paid { event_id: e, kind: k, session }) && e@ == event_id
                    && k@ == kind && session_at(session, doc, "/data/object"@)
            } else {
                r matches Ok(WebhookAction::Ignore)
            }
        } else if kind == "checkout.session.expired"@ {
            if object_text(doc, "/id"@) is Some && object_order_id(doc) is Some {
                r matches Ok(WebhookAction::Expired { event_id: e, kind: k, order_id }) && e@ == event_id
                    && k@ == kind && order_id@ == object_order_id(doc)->0
            } else {
                r matches Ok(WebhookAction::Ignore)
            }
        } else {
            r matches Ok(WebhookAction::Ignore)
        }
    }
}

fn bad_payload() -> (e: ApiError)
    ensures
        payload_error(e),
{
    ApiError::new(400, "bad_payload", "Invalid payload.")
}

/// What an event of type `kind` asks for, given the session object read from it (`None`:
/// no session object with an id): a paid session of a paid-type event is applied, an
/// expired session with an order id expires it, everything else is ignored; a paid-type
/// event without a session is refused.
pub fn webhook_action(event_id: String, kind: String, session: Option<SessionInfo>) -> (r: Result<
    WebhookAction,
    ApiError,
>)
    ensures
        is_paid_kind(kind@) ==> match session {
            None => r matches Err(e) && payload_error(e),
            Some(s) => if s.payment_status@ == "paid"@ {
                r == Ok::<WebhookAction, ApiError>(
                    WebhookAction::Paid { event_id: event_id, kind: kind, session: s },
                )
            } else {
                r matches Ok(WebhookAction::Ignore)
            },
        },
        !is_paid_kind(kind@) && kind@ == "checkout.session.expired"@ ==> match session {
            Some(s) => match s.order_id {
                Some(o) => r == Ok::<WebhookAction, ApiError>(
                    WebhookAction::Expired { event_id: event_id, kind: kind, order_id: o },
                ),
                None => r matches Ok(WebhookAction::Ignore),
            },
            None => r matches Ok(WebhookAction::Ignore),
        },
        !is_paid_kind(kind@) && kind@ != "checkout.session.expired"@ ==> r matches Ok(
            WebhookAction::Ignore,
        ),
{
    if str_eq(kind.as_str(), "checkout.session.completed") || str_eq(
        kind.as_str(),
        "checkout.session.async_payment_succeeded",
    ) {
        match session {
            None => Err(bad_payload()),
            Some(s) => if str_eq(s.payment_status.as_str(), "paid") {
                Ok(WebhookAction::Paid { event_id, kind, session: s })
            } else {
                Ok(WebhookAction::Ignore)
            },
        }
    } else if str_eq(kind.as_str(), "checkout.session.expired") {
        match session {
            Some(s) => match s.order_id {
                Some(order_id) => Ok(WebhookAction::Expired { event_id, kind, order_id }),
                None => Ok(WebhookAction::Ignore),
            },
            None => Ok(WebhookAction::Ignore),
        }
    } else {
        Ok(WebhookAction::Ignore)
    }
}

/// Checks a webhook request and reads what its event asks for.
pub fn webhook_plan(secret: &str, signature: &str, body: &[u8], now_unix: i64) -> (r: Result<
    WebhookAction,
    ApiError,
>)
    requires
        timestamp_fits(signature@, now_unix),
    ensures
        webhook_ok(r, secret@, signature@, body@, now_unix),
{
    if !verify_signature(secret, signature, body, now_unix, WEBHOOK_TOLERANCE_SECS) {
        return Err(ApiError::new(400, "bad_signature", "Invalid signature."));
    }
    if !json_parses(body) {
        return Err(bad_payload());
    }
    let event_id = match json_text(body, "/id") {
        Some(v) => v,
        None => return Err(bad_payload()),
    };
    let kind = match json_text(body, "/type") {
        Some(v) => v,
        None => return Err(bad_payload()),
    };
    let session = SessionInfo::from_json(body, "/data/object");
    webhook_action(event_id, kind, session)
}

// ---------------------------------------------------------------------------------------------
// Rate limiting and cache headers
// ---------------------------------------------------------------------------------------------

/// The client address used for rate limiting: behind a trusted proxy, the rightmost
/// `X-Forwarded-For` entry (the one our own proxy appended), trimmed, when not empty;
/// otherwise the peer address, or `unknown`.
pub open spec fn client_key_spec(trust_proxy: bool, forwarded_for: Option<Seq<char>>, peer: Option<Seq<char>>) -> Seq<char> {
    let forwarded = match forwarded_for {
        Some(h) => trim_spec(split_spec(h, ',').last()),
        None => Seq::empty(),
    };
    if trust_proxy && forwarded_for is Some && forwarded.len() > 0 {
        forwarded
    } else {
        match peer {
            Some(p) => p,
            None => "unknown"@,
        }
    }
}

pub fn client_key(trust_proxy: bool, forwarded_for: Option<&str>, peer: Option<String>) -> (r: String)
    ensures
        r@ == client_key_spec(
            trust_proxy,
            match forwarded_for {
                Some(h) => Some(h@),
                None => None,
            },
            opt_view(peer),
        ),
{
    if trust_proxy {
        match forwarded_for {
            Some(h) => {
                let cs = chars_of(h);
                let parts = split_chars(&cs, ',');
                proof {
                    crate::text::lemma_split_nonempty(cs@, ',');
                }
                let last = &parts[parts.len() - 1];
                assert(last@ == split_spec(h@, ',').last());
                let t = trim_chars(last);
                if t.len() > 0 {
                    return string_of(&t);
                }
            },
            None => {},
        }
    }
    match peer {
        Some(p) => p,
        None => String::from_str("unknown"),
    }
}

pub open spec fn rate_limited_message() -> Seq<char> {
    "Too many requests. Please wait a minute and try again."@
}

/// Counts a checkout request from `key` at `now` (nanoseconds); 429 when over the limit.
pub fn rate_limit_check(limiter: &mut RateLimiter, key: &str, now: u64) -> (r: Option<ApiError>)
    requires
        old(limiter).wf(),
    ensures
        final(limiter).wf(),
        final(limiter).max_hits() == old(limiter).max_hits(),
        final(limiter).window_nanos() == old(limiter).window_nanos(),
        final(limiter)@ == allow_spec(old(limiter)@, key@, now, old(limiter).max_hits(), old(limiter).window_nanos()).1,
        match r {
            None => allow_spec(old(limiter)@, key@, now, old(limiter).max_hits(), old(limiter).window_nanos()).0,
            Some(e) => !allow_spec(old(limiter)@, key@, now, old(limiter).max_hits(), old(limiter).window_nanos()).0
                && error_is(e, 429, "rate_limited"@, rate_limited_message()),
        },
{
    if limiter.allow(key, now) {
        None
    } else {
        Some(ApiError::new(429, "rate_limited", "Too many requests. Please wait a minute and try again."))
    }
}

pub open spec fn has_suffix(s: Seq<char>, x: Seq<char>) -> bool {
    x.len() <= s.len() && s.skip(s.len() - x.len()) == x
}

/// The `Cache-Control` value added to a static response: none for the API or when one is
/// set; content-hashed wasm, js and css are cached for a year; HTML must be revalidated.
pub open spec fn cache_header_spec(path: Seq<char>, has_cache_control: bool, content_type: Option<Seq<u8>>) -> Option<Seq<char>> {
    if has_prefix(path, "/api"@) || has_cache_control {
        None
    } else if has_suffix(path, ".wasm"@) || has_suffix(path, ".js"@) || has_suffix(path, ".css"@) {
        Some("public, max-age=31536000, immutable"@)
    } else if content_type matches Some(t) && t.len() >= 9 && t.take(9) == seq![116u8, 101u8, 120u8, 116u8, 47u8, 104u8, 116u8, 109u8, 108u8] {
        Some("no-cache"@)
    } else {
        None
    }
}

fn ends_with_str(s: &Vec<char>, x: &str) -> (r: bool)
    ensures
        r == has_suffix(s@, x@),
{
    let xs = chars_of(x);
    if xs.len() > s.len() {
        return false;
    }
    let off = s.len() - xs.len();
    let mut i: usize = 0;
    while i < xs.len()
        invariant
            i <= xs.len(),
            off + xs.len() == s.len(),
            xs@ == x@,
            forall|j: int| 0 <= j < i ==> s@[off + j] == xs@[j],
        decreases xs.len() - i,
    {
        if s[off + i] != xs[i] {
            assert(s@.skip(off as int)[i as int] != xs@[i as int]);
            assert(s@.skip(off as int) != x@);
            assert(s@.skip(s@.len() - x@.len()) != x@);
            return false;
        }
        i = i + 1;
    }
    assert(s@.skip(off as int) =~= xs@);
    true
}

fn is_html(t: &[u8]) -> (r: bool)
    ensures
        r == (t@.len() >= 9 && t@.take(9) == seq![116u8, 101u8, 120u8, 116u8, 47u8, 104u8, 116u8, 109u8, 108u8]),
{
    if t.len() < 9 {
        return false;
    }
    let ok = t[0] == 116u8 && t[1] == 101u8 && t[2] == 120u8 && t[3] == 116u8 && t[4] == 47u8
        && t[5] == 104u8 && t[6] == 116u8 && t[7] == 109u8 && t[8] == 108u8;
    if ok {
        assert(t@.take(9) =~= seq![116u8, 101u8, 120u8, 116u8, 47u8, 104u8, 116u8, 109u8, 108u8]);
    } else {
        assert(t@.take(9) != seq![116u8, 101u8, 120u8, 116u8, 47u8, 104u8, 116u8, 109u8, 108u8]) by {
            let w = seq![116u8, 101u8, 120u8, 116u8, 47u8, 104u8, 116u8, 109u8, 108u8];
            if t@.take(9) == w {
                assert(t@[0] == w[0] && t@[1] == w[1] && t@[2] == w[2] && t@[3] == w[3]);
                assert(t@[4] == w[4] && t@[5] == w[5] && t@[6] == w[6] && t@[7] == w[7] && t@[8] == w[8]);
            }
        }
    }
    ok
}

/// The `Cache-Control` header for a static response (`content_type` is the response's
/// `Content-Type`, if any).
pub fn cache_header(path: &str, has_cache_control: bool, content_type: Option<&[u8]>) -> (r: Option<
    &'static str,
>)
    ensures
        match r {
            Some(v) => cache_header_spec(
                path@,
                has_cache_control,
                match content_type {
                    Some(t) => Some(t@),
                    None => None,
                },
            ) == Some(v@),
            None => cache_header_spec(
                path@,
                has_cache_control,
                match content_type {
                    Some(t) => Some(t@),
                    None => None,
                },
            ) is None,
        },
{
    let p = chars_of(path);
    let api = chars_of("/api");
    if chars_start_with(&p, &api) || has_cache_control {
        return None;
    }
    if ends_with_str(&p, ".wasm") || ends_with_str(&p, ".js") || ends_with_str(&p, ".css") {
        return Some("public, max-age=31536000, immutable");
    }
    match content_type {
        Some(t) => if is_html(t) {
            Some("no-cache")
        } else {
            None
        },
        None => None,
    }
}

} // verus!
