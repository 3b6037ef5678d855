//! The calendar aggregator: read-only per-user views composed from the
//! busy-day ledger and the invitation store over an inclusive date range.

use vstd::prelude::*;

use crate::date::{date_le, date_lt, parse_date, parseable, parsed_date, Date};
use crate::error::ApiError;
use crate::friends::are_users_accepted_friends;
use crate::model::{Busyday, InvitationDate, InvitationStatus, UserId};
use crate::requests::CalendarQuery;
use crate::responses::{busyday_response_of, busyday_row_of, busyday_responses_sorted,
    BusydayResponse, CalendarResponse, InviteDirection, PendingInviteResponse};
use crate::sort::{lemma_filter_push, sort_busydays};
use crate::store::{lemma_inv_index_is, SchedulingState};

verus! {

/// A calendar range is acceptable when both endpoints spell out real
/// days and the range is not inverted.
pub open spec fn range_ok(from: Seq<char>, to: Seq<char>) -> bool {
    &&& parseable(from)
    &&& parseable(to)
    &&& parsed_date(from).le(parsed_date(to))
}

/// The busy-day rows of `u` with `from <= date <= to`, in store order.
pub open spec fn user_busy_rows(s: SchedulingState, u: UserId, from: Date, to: Date) -> Seq<
    Busyday,
> {
    s.busydays@.filter(|b: Busyday| b.user_id == u && from.le(b.date) && b.date.le(to))
}

/// `resp` lists exactly the busy-day rows of `u` in the range, in
/// ascending date order.
pub open spec fn is_busyday_listing(
    resp: Seq<BusydayResponse>,
    s: SchedulingState,
    u: UserId,
    from: Date,
    to: Date,
) -> bool {
    &&& busyday_responses_sorted(resp)
    &&& resp.map_values(|b: BusydayResponse| busyday_row_of(b)).to_multiset() == user_busy_rows(
        s,
        u,
        from,
        to,
    ).to_multiset()
}

/// A proposed-date row belongs in `u`'s pending-invite view of the range:
/// its invitation is pending, involves `u`, and the day lies in range.
pub open spec fn pending_row_matches(
    s: SchedulingState,
    row: InvitationDate,
    u: UserId,
    from: Date,
    to: Date,
) -> bool {
    &&& s.has_invitation(row.invitation_id)
    &&& s.invitation_at(row.invitation_id).status == InvitationStatus::Pending
    &&& (s.invitation_at(row.invitation_id).from_user_id == u || s.invitation_at(
        row.invitation_id,
    ).to_user_id == u)
    &&& from.le(row.date)
    &&& row.date.le(to)
}

/// The reported form of a pending proposed date, tagged incoming or
/// outgoing from `u`'s perspective.
pub open spec fn pending_invite_of(
    s: SchedulingState,
    row: InvitationDate,
    u: UserId,
) -> PendingInviteResponse {
    PendingInviteResponse {
        invitation_id: row.invitation_id,
        date: row.date,
        direction: if s.invitation_at(row.invitation_id).to_user_id == u {
            InviteDirection::Incoming
        } else {
            InviteDirection::Outgoing
        },
    }
}

/// The pending-invite view of `u` over the range, in store order of the
/// proposed-date table.
pub open spec fn pending_invites_of(
    s: SchedulingState,
    u: UserId,
    from: Date,
    to: Date,
) -> Seq<PendingInviteResponse> {
    s.invitation_dates@.filter(|row: InvitationDate| pending_row_matches(s, row, u, from, to))
        .map_values(|row: InvitationDate| pending_invite_of(s, row, u))
}

/// Parses the two endpoints of a calendar range; unparseable text and an
/// inverted range are malformed.
pub fn parse_date_range(from: &str, to: &str) -> (r: Result<(Date, Date), ApiError>)
    ensures
        (r is Ok <==> range_ok(from@, to@)),
        r is Ok ==> r == Ok::<(Date, Date), ApiError>(
            (parsed_date(from@), parsed_date(to@)),
        ),
        r is Err ==> r == Err::<(Date, Date), ApiError>(ApiError::BadRequest),
{
    let from_date = match parse_date(from) {
        Some(d) => d,
        None => {
            return Err(ApiError::BadRequest);
        },
    };
    let to_date = match parse_date(to) {
        Some(d) => d,
        None => {
            return Err(ApiError::BadRequest);
        },
    };
    if !date_le(&from_date, &to_date) {
        return Err(ApiError::BadRequest);
    }
    Ok((from_date, to_date))
}

/// The busy-day rows of `u` in the range, in store order.
fn collect_busy_rows(state: &SchedulingState, u: UserId, from: &Date, to: &Date) -> (rows: Vec<
    Busyday,
>)
    ensures
        rows@ == user_busy_rows(*state, u, *from, *to),
{
    let ghost pred = |b: Busyday| b.user_id == u && from.le(b.date) && b.date.le(*to);
    let n = state.busydays.len();
    let mut rows: Vec<Busyday> = Vec::new();
    let mut i: usize = 0;
    proof {
        assert(state.busydays@.subrange(0, 0).filter(pred) =~= Seq::<Busyday>::empty()) by {
            reveal(Seq::filter);
        }
    }
    while i < n
        invariant
            n == state.busydays@.len(),
            i <= n,
            rows@ == state.busydays@.subrange(0, i as int).filter(pred),
            pred == (|b: Busyday| b.user_id == u && from.le(b.date) && b.date.le(*to)),
        decreases n - i,
    {
        proof {
            lemma_filter_push(
                state.busydays@.subrange(0, i as int),
                pred,
                state.busydays@[i as int],
            );
            assert(state.busydays@.subrange(0, i + 1) =~= state.busydays@.subrange(
                0,
                i as int,
            ).push(state.busydays@[i as int]));
        }
        let b = state.busydays[i];
        if b.user_id == u && date_le(from, &b.date) && date_le(&b.date, to) {
            rows.push(b);
        }
        i += 1;
    }
    proof {
        assert(state.busydays@.subrange(0, n as int) =~= state.busydays@);
    }
    rows
}

/// The busy days of `u` in the range, sorted ascending and in reported
/// form.
fn busy_listing(state: &SchedulingState, u: UserId, from: &Date, to: &Date) -> (resp: Vec<
    BusydayResponse,
>)
    ensures
        is_busyday_listing(resp@, *state, u, *from, *to),
{
    let rows = collect_busy_rows(state, u, from, to);
    let sorted = sort_busydays(rows);
    let m = sorted.len();
    let mut resp: Vec<BusydayResponse> = Vec::new();
    let mut j: usize = 0;
    while j < m
        invariant
            m == sorted@.len(),
            j <= m,
            resp@.len() == j,
            forall|k: int| 0 <= k < j ==> #[trigger] resp@[k] == busyday_response_of(sorted@[k]),
        decreases m - j,
    {
        let b = sorted[j];
        resp.push(BusydayResponse { id: b.id, user_id: b.user_id, date: b.date, event_id: b.event_id });
        j += 1;
    }
    proof {
        assert(resp@.map_values(|b: BusydayResponse| busyday_row_of(b)) =~= sorted@);
        assert forall|a: int, b: int| 0 <= a < b < resp@.len() implies (
        #[trigger] resp@[a]).date.le((#[trigger] resp@[b]).date) by {
            assert(resp@[a] == busyday_response_of(sorted@[a]));
            assert(resp@[b] == busyday_response_of(sorted@[b]));
        }
    }
    resp
}

/// The dates of the listed busy days that lie strictly before `today`.
fn past_events_of(busy: &Vec<BusydayResponse>, today: &Date) -> (past: Vec<Date>)
    ensures
        past@ == busy@.filter(|b: BusydayResponse| b.date.lt(*today)).map_values(
            |b: BusydayResponse| b.date,
        ),
{
    let ghost pred = |b: BusydayResponse| b.date.lt(*today);
    let ghost f = |b: BusydayResponse| b.date;
    let n = busy.len();
    let mut past: Vec<Date> = Vec::new();
    let mut i: usize = 0;
    proof {
        assert(busy@.subrange(0, 0).filter(pred) =~= Seq::<BusydayResponse>::empty()) by {
            reveal(Seq::filter);
        }
        assert(past@ =~= busy@.subrange(0, 0).filter(pred).map_values(f));
    }
    while i < n
        invariant
            n == busy@.len(),
            i <= n,
            past@ == busy@.subrange(0, i as int).filter(pred).map_values(f),
            pred == (|b: BusydayResponse| b.date.lt(*today)),
            f == (|b: BusydayResponse| b.date),
        decreases n - i,
    {
        proof {
            lemma_filter_push(busy@.subrange(0, i as int), pred, busy@[i as int]);
            assert(busy@.subrange(0, i + 1) =~= busy@.subrange(0, i as int).push(
                busy@[i as int],
            ));
            if pred(busy@[i as int]) {
                assert(busy@.subrange(0, i as int).filter(pred).push(
                    busy@[i as int],
                ).map_values(f) =~= busy@.subrange(0, i as int).filter(pred).map_values(f).push(
                    f(busy@[i as int]),
                ));
            }
        }
        let b = &busy[i];
        if date_lt(&b.date, today) {
            past.push(b.date);
        }
        i += 1;
    }
    proof {
        assert(busy@.subrange(0, n as int) =~= busy@);
    }
    past
}

/// The pending-invite view of `u` over the range, in store order.
fn pending_listing(state: &SchedulingState, u: UserId, from: &Date, to: &Date) -> (resp: Vec<
    PendingInviteResponse,
>)
    requires
        state.wf(),
    ensures
        resp@ == pending_invites_of(*state, u, *from, *to),
{
    let ghost pred = |row: InvitationDate| pending_row_matches(*state, row, u, *from, *to);
    let ghost f = |row: InvitationDate| pending_invite_of(*state, row, u);
    let n = state.invitation_dates.len();
    let mut resp: Vec<PendingInviteResponse> = Vec::new();
    let mut i: usize = 0;
    proof {
        assert(state.invitation_dates@.subrange(0, 0).filter(pred) =~= Seq::<
            InvitationDate,
        >::empty()) by {
            reveal(Seq::filter);
        }
        assert(resp@ =~= state.invitation_dates@.subrange(0, 0).filter(pred).map_values(f));
    }
    while i < n
        invariant
            state.wf(),
            n == state.invitation_dates@.len(),
            i <= n,
            resp@ == state.invitation_dates@.subrange(0, i as int).filter(pred).map_values(f),
            pred == (|row: InvitationDate| pending_row_matches(*state, row, u, *from, *to)),
            f == (|row: InvitationDate| pending_invite_of(*state, row, u)),
        decreases n - i,
    {
        proof {
            lemma_filter_push(
                state.invitation_dates@.subrange(0, i as int),
                pred,
                state.invitation_dates@[i as int],
            );
            assert(state.invitation_dates@.subrange(0, i + 1) =~= state.invitation_dates@.subrange(
                0,
                i as int,
            ).push(state.invitation_dates@[i as int]));
            if pred(state.invitation_dates@[i as int]) {
                assert(state.invitation_dates@.subrange(0, i as int).filter(pred).push(
                    state.invitation_dates@[i as int],
                ).map_values(f) =~= state.invitation_dates@.subrange(0, i as int).filter(
                    pred,
                ).map_values(f).push(f(state.invitation_dates@[i as int])));
            }
            assert(state.invitation_dates@[i as int].id < state.next_id);
        }
        let row = state.invitation_dates[i];
        let owner_idx = match crate::engine::find_invitation_index(
            &state.invitations,
            row.invitation_id,
        ) {
            Some(a) => a,
            None => {
                proof {
                    assert(state.has_invitation(row.invitation_id));
                    assert(false);
                }
                0
            },
        };
        proof {
            lemma_inv_index_is(*state, owner_idx as int);
        }
        let owner = &state.invitations[owner_idx];
        if matches!(owner.status, InvitationStatus::Pending) && (owner.from_user_id == u
            || owner.to_user_id == u) && date_le(from, &row.date) && date_le(&row.date, to) {
            let direction = if owner.to_user_id == u {
                InviteDirection::Incoming
            } else {
                InviteDirection::Outgoing
            };
            resp.push(
                PendingInviteResponse { invitation_id: row.invitation_id, date: row.date, direction },
            );
        }
        i += 1;
    }
    proof {
        assert(state.invitation_dates@.subrange(0, n as int) =~= state.invitation_dates@);
    }
    resp
}

/// Reads `user_id`'s calendar over the inclusive range of the query:
/// their busy days in ascending order, the subset of those strictly
/// before `today`, and the proposed dates of their pending invitations,
/// tagged incoming or outgoing.  Only the user themself or an accepted
/// friend may read it; an unparseable or inverted range is malformed.
pub fn get_user_calendar(
    state: &SchedulingState,
    me: UserId,
    user_id: UserId,
    query: &CalendarQuery,
    today: Date,
) -> (r: Result<CalendarResponse, ApiError>)
    requires
        state.wf(),
        today.valid(),
    ensures
        ({
            let authorized = me == user_id || state.are_friends(me, user_id);
            &&& (r == Err::<CalendarResponse, ApiError>(ApiError::Forbidden) <==> !authorized)
            &&& (r == Err::<CalendarResponse, ApiError>(ApiError::BadRequest) <==> authorized
                && !range_ok(query.from@, query.to@))
            &&& (r is Ok <==> authorized && range_ok(query.from@, query.to@))
        }),
        r is Ok ==> ({
            let from = parsed_date(query.from@);
            let to = parsed_date(query.to@);
            let resp = r->Ok_0;
            &&& resp.from == from
            &&& resp.to == to
            &&& is_busyday_listing(resp.busy_days@, *state, user_id, from, to)
            &&& resp.past_events@ == resp.busy_days@.filter(
                |b: BusydayResponse| b.date.lt(today),
            ).map_values(|b: BusydayResponse| b.date)
            &&& resp.pending_invites@ == pending_invites_of(*state, user_id, from, to)
        }),
{
    if me != user_id && !are_users_accepted_friends(state, me, user_id) {
        return Err(ApiError::Forbidden);
    }
    let (from, to) = match parse_date_range(query.from.as_str(), query.to.as_str()) {
        Ok(range) => range,
        Err(e) => {
            return Err(e);
        },
    };
    let busy_days = busy_listing(state, user_id, &from, &to);
    let past_events = past_events_of(&busy_days, &today);
    let pending_invites = pending_listing(state, user_id, &from, &to);
    Ok(CalendarResponse { from, to, busy_days, pending_invites, past_events })
}

/// Reads the caller's own busy days over the inclusive range of the
/// query, in ascending date order.  No friendship check applies; an
/// unparseable or inverted range is malformed.
pub fn get_my_busydays(state: &SchedulingState, me: UserId, query: &CalendarQuery) -> (r: Result<
    Vec<BusydayResponse>,
    ApiError,
>)
    requires
        state.wf(),
    ensures
        (r is Err <==> !range_ok(query.from@, query.to@)),
        r is Err ==> r == Err::<Vec<BusydayResponse>, ApiError>(ApiError::BadRequest),
        r is Ok ==> is_busyday_listing(
            r->Ok_0@,
            *state,
            me,
            parsed_date(query.from@),
            parsed_date(query.to@),
        ),
{
    let (from, to) = match parse_date_range(query.from.as_str(), query.to.as_str()) {
        Ok(range) => range,
        Err(e) => {
            return Err(e);
        },
    };
    Ok(busy_listing(state, me, &from, &to))
}

} // verus!
