//! Stored orders and the decisions that payment events make on them.
//!
//! The database work (the event log, the order rows, the transaction) is the caller's; what
//! an event does to an order is decided here.

use vstd::prelude::*;
use vstd::string::StringExecFns;

use crate::api::{
    status_from_name, Delivery, Fulfillment, OrderLine, OrderStatus, ShipTo,
};
use crate::stripe::SessionInfo;
use crate::text::{debug_quote, debug_quoted, i64_decimal, signed_decimal, str_eq, string_of};

verus! {

/// An order as the database holds it, with its lines.
#[derive(Debug)]
pub struct OrderRow {
    pub id: String,
    pub status: OrderStatus,
    pub email: String,
    pub buyer_name: String,
    pub phone: String,
    pub scout_name: Option<String>,
    pub total_cents: i64,
    pub delivery: Option<Delivery>,
    pub ship_to: Option<ShipTo>,
    pub gift_message: Option<String>,
    pub stripe_session_id: Option<String>,
    pub review_reason: Option<String>,
    pub created_at: String,
    pub paid_at: Option<String>,
    pub lines: Vec<OrderLine>,
}

/// The status a row reads as: its stored name, or `needs_review` for a name we do not know.
pub fn row_status(name: &str) -> (r: OrderStatus)
    ensures
        r == (match status_from_name(name@) {
            Some(s) => s,
            None => OrderStatus::NeedsReview,
        }),
{
    match OrderStatus::parse(name) {
        Some(s) => s,
        None => OrderStatus::NeedsReview,
    }
}

/// The fulfillment a stored line reads as: its stored name, or scout delivery for a name we
/// do not know.
pub fn line_fulfillment(name: &str) -> (r: Fulfillment)
    ensures
        r == (if name@ == "direct_ship"@ {
            Fulfillment::DirectShip
        } else {
            Fulfillment::ScoutDelivery
        }),
{
    proof {
        reveal_strlit("scout_delivery");
        reveal_strlit("direct_ship");
        assert("scout_delivery"@ != "direct_ship"@) by {
            assert("scout_delivery"@.len() != "direct_ship"@.len());
        }
    }
    match Fulfillment::parse(name) {
        Some(f) => f,
        None => Fulfillment::ScoutDelivery,
    }
}

#[derive(Debug, Clone, Copy, PartialEq, Eq, Structural)]
pub enum PaidOutcome {
    Paid,
    AlreadyPaid,
    /// This webhook event id was already processed.
    Duplicate,
    UnknownOrder,
    /// Stripe's total differs from ours; order flagged `needs_review`.
    AmountMismatch,
}

/// What a paid session is checked against: the stored order's status, total and recorded
/// session.
#[derive(Debug)]
pub struct StoredOrder {
    pub status: OrderStatus,
    pub total_cents: i64,
    pub stripe_session_id: Option<String>,
}

/// What to write to the order.
#[derive(Debug)]
pub enum PaidChange {
    Untouched,
    /// Status `needs_review` with this reason; the payment intent and `paid_at` are kept.
    FlagForReview { reason: String },
    /// Status `paid`, with the payment intent, `paid_at` and the session id if none was
    /// recorded; the review reason is cleared.
    MarkPaid,
}

#[derive(Debug)]
pub struct PaidDecision {
    pub outcome: PaidOutcome,
    pub change: PaidChange,
    /// Whether the transaction (with the event record) is committed.
    pub commit: bool,
}

/// The status a change leaves the order in, when it touches it.
pub open spec fn change_status(c: PaidChange) -> Option<OrderStatus> {
    match c {
        PaidChange::Untouched => None,
        PaidChange::FlagForReview { .. } => Some(OrderStatus::NeedsReview),
        PaidChange::MarkPaid => Some(OrderStatus::Paid),
    }
}

/// Why a paid session does not fit the order: another amount, or another session than
/// the one recorded.
pub open spec fn mismatch_reason(o: StoredOrder, s: SessionInfo) -> Option<Seq<char>> {
    if s.amount_total != o.total_cents {
        Some(
            "Stripe amount "@ + signed_decimal(s.amount_total as int) + " != order total "@
                + signed_decimal(o.total_cents as int),
        )
    } else {
        match o.stripe_session_id {
            Some(id) => if id@ != s.id@ {
                Some(
                    "Stripe session "@ + s.id@ + " != recorded session Some("@ + debug_quoted(id@)
                        + ")"@,
                )
            } else {
                None
            },
            None => None,
        }
    }
}

/// The outcome of a paid session, the status it leaves the order in (`None`: untouched),
/// and whether the transaction is committed. `event_is_new` is false for a webhook event
/// seen before; `order` is the stored order named by the session, if any.
pub open spec fn paid_effect(event_is_new: bool, order: Option<StoredOrder>, s: SessionInfo) -> (
    PaidOutcome,
    Option<OrderStatus>,
    bool,
) {
    if !event_is_new {
        (PaidOutcome::Duplicate, None, false)
    } else if s.order_id is None {
        (PaidOutcome::UnknownOrder, None, false)
    } else {
        match order {
            None => (PaidOutcome::UnknownOrder, None, true),
            Some(o) => if o.status == OrderStatus::Paid {
                (PaidOutcome::AlreadyPaid, None, true)
            } else if mismatch_reason(o, s) is Some {
                (PaidOutcome::AmountMismatch, Some(OrderStatus::NeedsReview), true)
            } else {
                (PaidOutcome::Paid, Some(OrderStatus::Paid), true)
            },
        }
    }
}

fn amount_reason(amount: i64, total: i64) -> (r: String)
    ensures
        r@ == "Stripe amount "@ + signed_decimal(amount as int) + " != order total "@
            + signed_decimal(total as int),
{
    let mut r = String::from_str("Stripe amount ");
    r.append(string_of(&i64_decimal(amount)).as_str());
    r.append(" != order total ");
    r.append(string_of(&i64_decimal(total)).as_str());
    r
}

fn session_reason(session: &str, recorded: &str) -> (r: String)
    ensures
        r@ == "Stripe session "@ + session@ + " != recorded session Some("@ + debug_quoted(
            recorded@,
        ) + ")"@,
{
    let mut r = String::from_str("Stripe session ");
    r.append(session);
    r.append(" != recorded session Some(");
    r.append(debug_quote(recorded).as_str());
    r.append(")");
    r
}

/// Decides what a paid Checkout Session does to its order. `event_is_new` is whether the
/// webhook event was recorded just now (true for the success-page reconcile, which has no
/// event); `order` is the stored order named by `s.order_id`.
pub fn decide_paid(event_is_new: bool, order: Option<StoredOrder>, s: &SessionInfo) -> (d:
    PaidDecision)
    ensures
        (d.outcome, change_status(d.change), d.commit) == paid_effect(event_is_new, order, *s),
        d.change matches PaidChange::FlagForReview { reason } ==> mismatch_reason(
            order->0,
            *s,
        ) == Some(reason@),
{
    if !event_is_new {
        return PaidDecision { outcome: PaidOutcome::Duplicate, change: PaidChange::Untouched, commit: false };
    }
    if s.order_id.is_none() {
        return PaidDecision { outcome: PaidOutcome::UnknownOrder, change: PaidChange::Untouched, commit: false };
    }
    let o = match order {
        Some(o) => o,
        None => {
            return PaidDecision {
                outcome: PaidOutcome::UnknownOrder,
                change: PaidChange::Untouched,
                commit: true,
            };
        },
    };
    if o.status == OrderStatus::Paid {
        return PaidDecision { outcome: PaidOutcome::AlreadyPaid, change: PaidChange::Untouched, commit: true };
    }
    if s.amount_total != o.total_cents {
        let reason = amount_reason(s.amount_total, o.total_cents);
        return PaidDecision {
            outcome: PaidOutcome::AmountMismatch,
            change: PaidChange::FlagForReview { reason },
            commit: true,
        };
    }
    match &o.stripe_session_id {
        Some(id) => {
            if !str_eq(id.as_str(), s.id.as_str()) {
                let reason = session_reason(s.id.as_str(), id.as_str());
                return PaidDecision {
                    outcome: PaidOutcome::AmountMismatch,
                    change: PaidChange::FlagForReview { reason },
                    commit: true,
                };
            }
        },
        None => {},
    }
    PaidDecision { outcome: PaidOutcome::Paid, change: PaidChange::MarkPaid, commit: true }
}

/// What an expired session does: a pending order becomes expired; nothing else changes.
#[derive(Debug)]
pub struct ExpiredDecision {
    pub expire: bool,
    /// Whether the transaction (with the event record) is committed.
    pub commit: bool,
}

pub open spec fn expired_effect(event_is_new: bool, status: Option<OrderStatus>) -> (bool, bool) {
    (event_is_new && status == Some(OrderStatus::Pending), event_is_new)
}

/// Decides what an expired Checkout Session does to its order, whose stored status is
/// `status` (`None`: no such order).
pub fn decide_expired(event_is_new: bool, status: Option<OrderStatus>) -> (d: ExpiredDecision)
    ensures
        (d.expire, d.commit) == expired_effect(event_is_new, status),
{
    let expire = event_is_new && match status {
        Some(OrderStatus::Pending) => true,
        _ => false,
    };
    ExpiredDecision { expire, commit: event_is_new }
}

// ---------------------------------------------------------------------------------------------
// The status transitions
// ---------------------------------------------------------------------------------------------

/// The order's status after a paid session.
pub open spec fn status_after_paid(event_is_new: bool, o: StoredOrder, s: SessionInfo) -> OrderStatus {
    match paid_effect(event_is_new, Some(o), s).1 {
        Some(st) => st,
        None => o.status,
    }
}

/// The order's status after an expired session.
pub open spec fn status_after_expired(event_is_new: bool, status: OrderStatus) -> OrderStatus {
    if expired_effect(event_is_new, Some(status)).0 {
        OrderStatus::Expired
    } else {
        status
    }
}

/// Paid orders never transition back: no event changes a paid order.
pub proof fn lemma_paid_is_final(event_is_new: bool, o: StoredOrder, s: SessionInfo)
    requires
        o.status == OrderStatus::Paid,
    ensures
        status_after_paid(event_is_new, o, s) == OrderStatus::Paid,
        status_after_expired(event_is_new, o.status) == OrderStatus::Paid,
{
}

/// An order changes status only `pending -> expired` on an expired session, and only
/// towards `paid` or `needs_review` on a paid one.
pub proof fn lemma_transitions(event_is_new: bool, o: StoredOrder, s: SessionInfo)
    ensures
        status_after_expired(event_is_new, o.status) != o.status ==> o.status
            == OrderStatus::Pending && status_after_expired(event_is_new, o.status)
            == OrderStatus::Expired,
        status_after_paid(event_is_new, o, s) != o.status ==> o.status != OrderStatus::Paid && (
        status_after_paid(event_is_new, o, s) == OrderStatus::Paid || status_after_paid(
            event_is_new,
            o,
            s,
        ) == OrderStatus::NeedsReview),
{
}

/// A webhook event seen before changes nothing and reports `Duplicate`.
pub proof fn lemma_duplicate_is_noop(order: Option<StoredOrder>, s: SessionInfo, status: Option<OrderStatus>)
    ensures
        paid_effect(false, order, s) == (PaidOutcome::Duplicate, None::<OrderStatus>, false),
        !expired_effect(false, status).0,
{
}

/// A session whose amount differs from the order's total never marks it paid.
pub proof fn lemma_mismatch_never_paid(event_is_new: bool, o: StoredOrder, s: SessionInfo)
    requires
        s.amount_total != o.total_cents,
        o.status != OrderStatus::Paid,
    ensures
        status_after_paid(event_is_new, o, s) != OrderStatus::Paid,
{
}

/// Applying a paid session again, after it marked the order paid, reports `AlreadyPaid`
/// and changes nothing.
pub proof fn lemma_paid_idempotent(o: StoredOrder, s: SessionInfo)
    requires
        paid_effect(true, Some(o), s).0 == PaidOutcome::Paid,
    ensures
        paid_effect(
            true,
            Some(StoredOrder { status: status_after_paid(true, o, s), ..o }),
            s,
        ) == (PaidOutcome::AlreadyPaid, None::<OrderStatus>, true),
{
}

/// An order is changed only together with the event record: every change is committed.
pub proof fn lemma_changes_are_committed(event_is_new: bool, order: Option<StoredOrder>, s: SessionInfo, status: Option<OrderStatus>)
    ensures
        paid_effect(event_is_new, order, s).1 is Some ==> paid_effect(event_is_new, order, s).2,
        expired_effect(event_is_new, status).0 ==> expired_effect(event_is_new, status).1,
{
}

} // verus!
