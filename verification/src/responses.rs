//! Response shapes of the public interface, and the specification of how
//! each one reflects the scheduling state it was read from.

use vstd::prelude::*;

use crate::date::Date;
use crate::model::{Busyday, Invitation, InvitationDate, InvitationId, InvitationStatus, UserId};
use crate::store::SchedulingState;

verus! {

/// Answer of a successful create call: the new invitation's id.
#[derive(Clone, Copy, Debug, PartialEq, Eq, Structural)]
pub struct CreatedInvitationResponse {
    pub id: InvitationId,
}

/// One proposed date of an invitation, as reported to callers.
#[derive(Clone, Copy, Debug, PartialEq, Eq, Structural)]
pub struct InvitationDateResponse {
    pub id: u128,
    pub invitation_id: InvitationId,
    pub date: Date,
}

/// An invitation with its proposed dates, as reported to callers.
pub struct InvitationResponse {
    pub id: InvitationId,
    pub from_user_id: UserId,
    pub to_user_id: UserId,
    pub status: InvitationStatus,
    pub selected_date: Option<Date>,
    pub created_at: i64,
    pub dates: Vec<InvitationDateResponse>,
}

/// One busy-day claim, as reported to callers.
#[derive(Clone, Copy, Debug, PartialEq, Eq, Structural)]
pub struct BusydayResponse {
    pub id: u128,
    pub user_id: UserId,
    pub date: Date,
    pub event_id: Option<u128>,
}

/// Whether a pending invitation was sent to or by the calendar's owner.
#[derive(Clone, Copy, Debug, PartialEq, Eq, Structural)]
pub enum InviteDirection {
    Incoming,
    Outgoing,
}

/// One proposed date of a pending invitation touching the calendar's
/// owner, tagged with its direction from the owner's perspective.
#[derive(Clone, Copy, Debug, PartialEq, Eq, Structural)]
pub struct PendingInviteResponse {
    pub invitation_id: InvitationId,
    pub date: Date,
    pub direction: InviteDirection,
}

/// A user's calendar over an inclusive range of days.
pub struct CalendarResponse {
    pub from: Date,
    pub to: Date,
    pub busy_days: Vec<BusydayResponse>,
    pub pending_invites: Vec<PendingInviteResponse>,
    pub past_events: Vec<Date>,
}

/// The proposed-date rows belonging to invitation `id`, in store order.
pub open spec fn date_rows_of(s: SchedulingState, id: InvitationId) -> Seq<InvitationDate> {
    s.invitation_dates@.filter(|r: InvitationDate| r.invitation_id == id)
}

/// The reported form of a proposed-date row.
pub open spec fn date_response_of(r: InvitationDate) -> InvitationDateResponse {
    InvitationDateResponse { id: r.id, invitation_id: r.invitation_id, date: r.date }
}

/// The stored row behind a reported proposed date.
pub open spec fn date_row_of(r: InvitationDateResponse) -> InvitationDate {
    InvitationDate { id: r.id, invitation_id: r.invitation_id, date: r.date }
}

/// The reported form of a busy-day row.
pub open spec fn busyday_response_of(b: Busyday) -> BusydayResponse {
    BusydayResponse { id: b.id, user_id: b.user_id, date: b.date, event_id: b.event_id }
}

/// The stored row behind a reported busy day.
pub open spec fn busyday_row_of(r: BusydayResponse) -> Busyday {
    Busyday { id: r.id, user_id: r.user_id, date: r.date, event_id: r.event_id }
}

/// Reported busy days come in ascending date order.
pub open spec fn busyday_responses_sorted(rows: Seq<BusydayResponse>) -> bool {
    forall|i: int, j: int|
        0 <= i < j < rows.len() ==> (#[trigger] rows[i]).date.le((#[trigger] rows[j]).date)
}

/// Reported proposed dates come in ascending date order.
pub open spec fn date_responses_sorted(rows: Seq<InvitationDateResponse>) -> bool {
    forall|i: int, j: int|
        0 <= i < j < rows.len() ==> (#[trigger] rows[i]).date.le((#[trigger] rows[j]).date)
}

/// The invitation row a report speaks of, rebuilt from the report's own
/// fields (a report carries every field of the row).
pub open spec fn invitation_of_view(resp: InvitationResponse) -> Invitation {
    Invitation {
        id: resp.id,
        from_user_id: resp.from_user_id,
        to_user_id: resp.to_user_id,
        status: resp.status,
        selected_date: resp.selected_date,
        created_at: resp.created_at,
    }
}

/// `resp` reports invitation `inv` as stored in `s`: every field of the
/// row, plus the invitation's own proposed dates in ascending date order.
pub open spec fn is_invitation_view(
    resp: InvitationResponse,
    inv: Invitation,
    s: SchedulingState,
) -> bool {
    &&& resp.id == inv.id
    &&& resp.from_user_id == inv.from_user_id
    &&& resp.to_user_id == inv.to_user_id
    &&& resp.status == inv.status
    &&& resp.selected_date == inv.selected_date
    &&& resp.created_at == inv.created_at
    &&& date_responses_sorted(resp.dates@)
    &&& resp.dates@.map_values(|r: InvitationDateResponse| date_row_of(r)).to_multiset()
        == date_rows_of(s, inv.id).to_multiset()
}

} // verus!
