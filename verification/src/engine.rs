//! The scheduling engine: the invitation lifecycle and its reads.  Every
//! operation takes the whole scheduling state, decides, and mutates it in
//! one step or not at all, so a caller never observes a partial write.

use vstd::prelude::*;

use crate::date::{date_lt, parse_date, parseable, parsed_date, Date};
use crate::error::ApiError;
use crate::friends::are_users_accepted_friends;
use crate::model::{Busyday, Invitation, InvitationDate, InvitationId, InvitationStatus, UserId};
use crate::requests::{AcceptInvitationRequest, CreateInvitationRequest};
use crate::responses::{date_response_of, date_row_of, date_responses_sorted, date_rows_of,
    invitation_of_view, is_invitation_view, CreatedInvitationResponse, InvitationDateResponse,
    InvitationResponse};
use crate::sort::{invitations_sorted_desc, lemma_filter_push, sort_date_rows,
    sort_invitations_desc};
use crate::store::{lemma_inv_index_is, SchedulingState};

verus! {

/// The proposed dates of a create call are acceptable: each one spells
/// out a real calendar day, none lies before the current day, and no day
/// appears twice.
pub open spec fn dates_ok(dates: Seq<String>, today: Date) -> bool {
    &&& forall|i: int| 0 <= i < dates.len() ==> parseable((#[trigger] dates[i])@)
    &&& forall|i: int| 0 <= i < dates.len() ==> !parsed_date((#[trigger] dates[i])@).lt(today)
    &&& forall|i: int, j: int|
        0 <= i < j < dates.len() ==> parsed_date((#[trigger] dates[i])@) != parsed_date((
        #[trigger] dates[j])@)
}

/// The proposed-date rows written by a successful create call: one row
/// per requested date, in request order, with consecutive fresh ids.
pub open spec fn created_rows(s: SchedulingState, dates: Seq<String>) -> Seq<InvitationDate> {
    Seq::new(
        dates.len(),
        |k: int|
            InvitationDate {
                id: (s.next_id as int + 1 + k) as u128,
                invitation_id: s.next_id,
                date: parsed_date(dates[k]@),
            },
    )
}

/// The invitation row written by a successful create call.
pub open spec fn created_invitation(
    s: SchedulingState,
    me: UserId,
    to: UserId,
    now_ts: i64,
) -> Invitation {
    Invitation {
        id: s.next_id,
        from_user_id: me,
        to_user_id: to,
        status: InvitationStatus::Pending,
        selected_date: None,
        created_at: now_ts,
    }
}

/// Creates an invitation from `me` to the requested recipient with the
/// requested candidate dates.  Self-invitations and empty date lists are
/// malformed; non-friends may not invite each other; malformed,
/// duplicate, or past dates are rejected.  The invitation row and its
/// whole proposed-date set are written together, or nothing is.
pub fn create_invitation(
    state: &mut SchedulingState,
    me: UserId,
    req: &CreateInvitationRequest,
    today: Date,
    now_ts: i64,
) -> (r: Result<CreatedInvitationResponse, ApiError>)
    requires
        old(state).wf(),
        today.valid(),
    ensures
        final(state).wf(),
        r is Err ==> *final(state) == *old(state),
        ({
            let bad_payload = req.to_user_id == me || req.dates@.len() == 0;
            let friends = old(state).are_friends(me, req.to_user_id);
            let ok_dates = dates_ok(req.dates@, today);
            let exhausted = old(state).next_id + 1 + req.dates@.len() > u128::MAX;
            &&& (r == Err::<CreatedInvitationResponse, ApiError>(ApiError::BadRequest)
                <==> bad_payload || (!bad_payload && friends && !ok_dates))
            &&& (r == Err::<CreatedInvitationResponse, ApiError>(ApiError::Forbidden)
                <==> !bad_payload && !friends)
            &&& (r == Err::<CreatedInvitationResponse, ApiError>(ApiError::Internal)
                <==> !bad_payload && friends && ok_dates && exhausted)
            &&& (r is Ok <==> !bad_payload && friends && ok_dates && !exhausted)
        }),
        r is Ok ==> ({
            &&& r->Ok_0 == CreatedInvitationResponse { id: old(state).next_id }
            &&& final(state).invitations@ == old(state).invitations@.push(
                created_invitation(*old(state), me, req.to_user_id, now_ts),
            )
            &&& final(state).invitation_dates@ == old(state).invitation_dates@ + created_rows(
                *old(state),
                req.dates@,
            )
            &&& final(state).busydays@ == old(state).busydays@
            &&& final(state).friendships@ == old(state).friendships@
            &&& final(state).next_id == old(state).next_id + 1 + req.dates@.len()
        }),
{
    if req.to_user_id == me || req.dates.len() == 0 {
        return Err(ApiError::BadRequest);
    }
    if !are_users_accepted_friends(state, me, req.to_user_id) {
        return Err(ApiError::Forbidden);
    }
    let n = req.dates.len();
    let mut parsed: Vec<Date> = Vec::new();
    let mut i: usize = 0;
    while i < n
        invariant
            *state == *old(state),
            old(state).wf(),
            !(req.to_user_id == me || req.dates@.len() == 0),
            old(state).are_friends(me, req.to_user_id),
            n == req.dates@.len(),
            i <= n,
            parsed@.len() == i,
            forall|k: int| 0 <= k < i ==> parseable((#[trigger] req.dates@[k])@),
            forall|k: int| 0 <= k < i ==> #[trigger] parsed@[k] == parsed_date(req.dates@[k]@),
            forall|k: int| 0 <= k < i ==> !(#[trigger] parsed@[k]).lt(today),
            forall|k: int| 0 <= k < i ==> (#[trigger] parsed@[k]).valid(),
            forall|k1: int, k2: int|
                0 <= k1 < k2 < i ==> (#[trigger] parsed@[k1]) != (#[trigger] parsed@[k2]),
        decreases n - i,
    {
        let ds = req.dates[i].as_str();
        proof {
            assert(ds@ == req.dates@[i as int]@);
        }
        let day = match parse_date(ds) {
            Some(d) => d,
            None => {
                proof {
                    assert(!parseable(req.dates@[i as int]@));
                    assert(!dates_ok(req.dates@, today));
                }
                return Err(ApiError::BadRequest);
            },
        };
        if date_lt(&day, &today) {
            proof {
                assert(parsed_date(req.dates@[i as int]@).lt(today));
                assert(!dates_ok(req.dates@, today));
            }
            return Err(ApiError::BadRequest);
        }
        let mut j: usize = 0;
        while j < i
            invariant
                *state == *old(state),
                old(state).wf(),
                !(req.to_user_id == me || req.dates@.len() == 0),
                old(state).are_friends(me, req.to_user_id),
                j <= i,
                i < n,
                n == req.dates@.len(),
                parsed@.len() == i,
                day == parsed_date(req.dates@[i as int]@),
                forall|k: int| 0 <= k < i ==> #[trigger] parsed@[k] == parsed_date(req.dates@[k]@),
                forall|k: int| 0 <= k < j ==> (#[trigger] parsed@[k]) != day,
            decreases i - j,
        {
            if parsed[j] == day {
                proof {
                    assert(parsed@[j as int] == parsed_date(req.dates@[j as int]@));
                    assert(parsed_date(req.dates@[j as int]@) == parsed_date(
                        req.dates@[i as int]@,
                    ));
                    assert(!dates_ok(req.dates@, today));
                }
                return Err(ApiError::BadRequest);
            }
            j += 1;
        }
        parsed.push(day);
        i += 1;
    }
    proof {
        assert forall|a: int| 0 <= a < n implies !parsed_date(
            (#[trigger] req.dates@[a])@,
        ).lt(today) by {
            assert(parsed@[a] == parsed_date(req.dates@[a]@));
        }
        assert forall|a: int, b: int| 0 <= a < b < n implies parsed_date((#[trigger] req.dates@[a])@)
            != parsed_date((#[trigger] req.dates@[b])@) by {
            assert(parsed@[a] == parsed_date(req.dates@[a]@));
            assert(parsed@[b] == parsed_date(req.dates@[b]@));
        }
        assert forall|a: int| 0 <= a < n implies parsed_date((#[trigger] req.dates@[a])@).valid() by {
            assert(parsed@[a] == parsed_date(req.dates@[a]@));
            assert(parsed@[a].valid());
        }
        assert(dates_ok(req.dates@, today));
    }
    let count = n as u128;
    if state.next_id > u128::MAX - 1 - count {
        return Err(ApiError::Internal);
    }
    let inv_id = state.next_id;
    let inv = Invitation {
        id: inv_id,
        from_user_id: me,
        to_user_id: req.to_user_id,
        status: InvitationStatus::Pending,
        selected_date: None,
        created_at: now_ts,
    };
    let ghost s0 = *state;
    let ghost rows_spec = created_rows(s0, req.dates@);
    state.invitations.push(inv);
    let mut k: usize = 0;
    proof {
        assert(rows_spec.subrange(0, 0) =~= Seq::<InvitationDate>::empty());
        assert(state.invitation_dates@ =~= s0.invitation_dates@ + rows_spec.subrange(0, 0));
    }
    while k < n
        invariant
            n == req.dates@.len(),
            n == parsed@.len(),
            k <= n,
            inv_id == s0.next_id,
            s0.next_id + 1 + n <= u128::MAX,
            rows_spec == created_rows(s0, req.dates@),
            forall|m: int| 0 <= m < n ==> #[trigger] parsed@[m] == parsed_date(req.dates@[m]@),
            state.invitations@ == s0.invitations@.push(inv),
            state.invitation_dates@ == s0.invitation_dates@ + rows_spec.subrange(0, k as int),
            state.busydays@ == s0.busydays@,
            state.friendships@ == s0.friendships@,
            state.next_id == s0.next_id,
        decreases n - k,
    {
        let row = InvitationDate {
            id: inv_id + 1 + (k as u128),
            invitation_id: inv_id,
            date: parsed[k],
        };
        proof {
            assert(row == rows_spec[k as int]);
            assert(rows_spec.subrange(0, k + 1) =~= rows_spec.subrange(0, k as int).push(row));
            assert(s0.invitation_dates@ + rows_spec.subrange(0, k + 1) =~= (s0.invitation_dates@
                + rows_spec.subrange(0, k as int)).push(row));
        }
        state.invitation_dates.push(row);
        k += 1;
    }
    state.next_id = inv_id + 1 + count;
    proof {
        assert(rows_spec.subrange(0, n as int) =~= rows_spec);
        assert(state.invitation_dates@ == s0.invitation_dates@ + rows_spec);
        lemma_wf_after_create(s0, *state, inv, rows_spec);
    }
    Ok(CreatedInvitationResponse { id: inv_id })
}

/// Scans the proposed-date table for a row of invitation `id` on day `d`.
fn proposes_exec(state: &SchedulingState, id: InvitationId, d: &Date) -> (r: bool)
    ensures
        r == state.proposes(id, *d),
{
    let n = state.invitation_dates.len();
    let mut i: usize = 0;
    while i < n
        invariant
            n == state.invitation_dates@.len(),
            i <= n,
            forall|j: int|
                0 <= j < i ==> !((#[trigger] state.invitation_dates@[j]).invitation_id == id
                    && state.invitation_dates@[j].date == *d),
        decreases n - i,
    {
        let row = &state.invitation_dates[i];
        if row.invitation_id == id && row.date == *d {
            return true;
        }
        i += 1;
    }
    false
}

/// Scans the busy-day ledger for a claim by `u` on day `d`.
fn busy_on_exec(state: &SchedulingState, u: UserId, d: &Date) -> (r: bool)
    ensures
        r == state.busy_on(u, *d),
{
    let n = state.busydays.len();
    let mut i: usize = 0;
    while i < n
        invariant
            n == state.busydays@.len(),
            i <= n,
            forall|j: int|
                0 <= j < i ==> !((#[trigger] state.busydays@[j]).user_id == u
                    && state.busydays@[j].date == *d),
        decreases n - i,
    {
        let row = &state.busydays[i];
        if row.user_id == u && row.date == *d {
            return true;
        }
        i += 1;
    }
    false
}

/// The accepted form of the invitation `id`: status flipped, the chosen
/// day recorded, everything else as stored.
pub open spec fn accepted_invitation(s: SchedulingState, id: InvitationId, sel: Date) -> Invitation {
    Invitation {
        status: InvitationStatus::Accepted,
        selected_date: Some(sel),
        ..s.invitation_at(id)
    }
}

/// Accepts a pending invitation addressed to `me`, choosing one of its
/// proposed dates.  In one atomic step the invitation becomes accepted
/// and both participants' claims on the chosen day are written — never
/// one without the other.  A malformed or unproposed date is rejected, a
/// resolved or foreign invitation reads as absent, and a day already
/// claimed by either participant is a conflict that leaves the
/// invitation pending and writes nothing.
pub fn accept_invitation(
    state: &mut SchedulingState,
    me: UserId,
    id: InvitationId,
    req: &AcceptInvitationRequest,
) -> (r: Result<InvitationResponse, ApiError>)
    requires
        old(state).wf(),
    ensures
        final(state).wf(),
        r is Err ==> *final(state) == *old(state),
        ({
            let ok_parse = parseable(req.selected_date@);
            let sel = parsed_date(req.selected_date@);
            let found = old(state).pending_for_recipient(id, me);
            let inv = old(state).invitation_at(id);
            let proposed = old(state).proposes(id, sel);
            let conflict = old(state).busy_on(inv.from_user_id, sel) || old(state).busy_on(
                inv.to_user_id,
                sel,
            );
            let exhausted = old(state).next_id + 2 > u128::MAX;
            &&& (r == Err::<InvitationResponse, ApiError>(ApiError::BadRequest) <==> !ok_parse || (
            found && !proposed))
            &&& (r == Err::<InvitationResponse, ApiError>(ApiError::NotFound) <==> ok_parse
                && !found)
            &&& (r == Err::<InvitationResponse, ApiError>(ApiError::Conflict) <==> ok_parse && found
                && proposed && conflict)
            &&& (r == Err::<InvitationResponse, ApiError>(ApiError::Internal) <==> ok_parse && found
                && proposed && !conflict && exhausted)
            &&& (r is Ok <==> ok_parse && found && proposed && !conflict && !exhausted)
        }),
        r is Ok ==> ({
            let sel = parsed_date(req.selected_date@);
            let idx = old(state).inv_index(id);
            let updated = accepted_invitation(*old(state), id, sel);
            let from = old(state).invitation_at(id).from_user_id;
            &&& final(state).invitations@ == old(state).invitations@.update(idx, updated)
            &&& final(state).invitation_dates@ == old(state).invitation_dates@
            &&& final(state).busydays@ == old(state).busydays@ + seq![
                Busyday { id: old(state).next_id, user_id: from, date: sel, event_id: None },
                Busyday {
                    id: (old(state).next_id + 1) as u128,
                    user_id: me,
                    date: sel,
                    event_id: None,
                },
            ]
            &&& final(state).friendships@ == old(state).friendships@
            &&& final(state).next_id == old(state).next_id + 2
            &&& is_invitation_view(r->Ok_0, updated, *final(state))
        }),
{
    let sel = match parse_date(req.selected_date.as_str()) {
        Some(d) => d,
        None => {
            return Err(ApiError::BadRequest);
        },
    };
    let idx = match find_invitation_index(&state.invitations, id) {
        Some(i) => i,
        None => {
            return Err(ApiError::NotFound);
        },
    };
    proof {
        lemma_inv_index_is(*old(state), idx as int);
    }
    let inv = state.invitations[idx];
    if inv.to_user_id != me || !matches!(inv.status, InvitationStatus::Pending) {
        return Err(ApiError::NotFound);
    }
    if !proposes_exec(state, id, &sel) {
        return Err(ApiError::BadRequest);
    }
    if busy_on_exec(state, inv.from_user_id, &sel) || busy_on_exec(state, me, &sel) {
        return Err(ApiError::Conflict);
    }
    if state.next_id > u128::MAX - 2 {
        return Err(ApiError::Internal);
    }
    let ghost s0 = *state;
    let updated = Invitation {
        status: InvitationStatus::Accepted,
        selected_date: Some(sel),
        ..inv
    };
    state.invitations.remove(idx);
    state.invitations.insert(idx, updated);
    let b1 = Busyday { id: state.next_id, user_id: inv.from_user_id, date: sel, event_id: None };
    let b2 = Busyday { id: state.next_id + 1, user_id: inv.to_user_id, date: sel, event_id: None };
    state.busydays.push(b1);
    state.busydays.push(b2);
    state.next_id = state.next_id + 2;
    proof {
        assert(state.invitations@ =~= s0.invitations@.update(idx as int, updated));
        assert(state.busydays@ =~= s0.busydays@ + seq![b1, b2]);
        lemma_wf_after_accept(s0, *state, idx as int, sel);
        lemma_inv_index_is(*state, idx as int);
    }
    Ok(load_invitation_response(state, id))
}

/// Accepting the pending invitation at `idx` on a proposed, unclaimed
/// day — flipping its status, recording the day, and appending one fresh
/// claim per participant — keeps the state well-formed.
proof fn lemma_wf_after_accept(s0: SchedulingState, s1: SchedulingState, idx: int, sel: Date)
    requires
        s0.wf(),
        0 <= idx < s0.invitations@.len(),
        s0.invitations@[idx].status == InvitationStatus::Pending,
        sel.valid(),
        s0.proposes(s0.invitations@[idx].id, sel),
        !s0.busy_on(s0.invitations@[idx].from_user_id, sel),
        !s0.busy_on(s0.invitations@[idx].to_user_id, sel),
        s0.next_id + 2 <= u128::MAX,
        s1.invitations@ == s0.invitations@.update(
            idx,
            Invitation {
                status: InvitationStatus::Accepted,
                selected_date: Some(sel),
                ..s0.invitations@[idx]
            },
        ),
        s1.invitation_dates@ == s0.invitation_dates@,
        s1.busydays@ == s0.busydays@ + seq![
            Busyday {
                id: s0.next_id,
                user_id: s0.invitations@[idx].from_user_id,
                date: sel,
                event_id: None,
            },
            Busyday {
                id: (s0.next_id + 1) as u128,
                user_id: s0.invitations@[idx].to_user_id,
                date: sel,
                event_id: None,
            },
        ],
        s1.friendships@ == s0.friendships@,
        s1.next_id == s0.next_id + 2,
    ensures
        s1.wf(),
{
    let old_len = s0.busydays@.len() as int;
    let from = s0.invitations@[idx].from_user_id;
    let to = s0.invitations@[idx].to_user_id;
    lemma_queries_append(s0, s1);
    assert forall|uid: InvitationId| s0.has_invitation(uid) implies #[trigger] s1.has_invitation(
        uid,
    ) by {
        let j = choose|j: int|
            0 <= j < s0.invitations@.len() && (#[trigger] s0.invitations@[j].id) == uid;
        assert(s1.invitations@[j].id == uid);
    }
    assert(s0.invitations@[idx].from_user_id != s0.invitations@[idx].to_user_id) by {
        assert(s0.invitations@[idx].id < s0.next_id);
    }
    assert forall|i: int| 0 <= i < s1.invitations@.len() implies (#[trigger] s1.invitations@[i].id)
        < s1.next_id by {
        assert(s0.invitations@[i].id < s0.next_id);
    }
    assert forall|i: int, j: int| 0 <= i < j < s1.invitations@.len() implies (
    #[trigger] s1.invitations@[i].id) != (#[trigger] s1.invitations@[j].id) by {
        assert(s0.invitations@[i].id != s0.invitations@[j].id);
    }
    assert forall|i: int|
        #![trigger s1.invitations@[i]]
        0 <= i < s1.invitations@.len() implies {
        let v = s1.invitations@[i];
        &&& v.from_user_id != v.to_user_id
        &&& (v.status == InvitationStatus::Accepted <==> v.selected_date is Some)
        &&& (v.status == InvitationStatus::Accepted ==> {
            let s = v.selected_date->0;
            &&& s.valid()
            &&& s1.proposes(v.id, s)
            &&& s1.busy_on(v.from_user_id, s)
            &&& s1.busy_on(v.to_user_id, s)
        })
    } by {
        assert(s0.invitations@[i].id < s0.next_id);
        if i == idx {
            assert(s1.busydays@[old_len].user_id == from && s1.busydays@[old_len].date == sel);
            assert(s1.busydays@[old_len + 1].user_id == to && s1.busydays@[old_len + 1].date
                == sel);
            assert(s1.busy_on(from, sel));
            assert(s1.busy_on(to, sel));
        }
    }
    assert forall|i: int|
        #![trigger s1.invitation_dates@[i]]
        0 <= i < s1.invitation_dates@.len() implies {
        let row = s1.invitation_dates@[i];
        &&& row.date.valid()
        &&& s1.has_invitation(row.invitation_id)
    } by {
        assert(s0.invitation_dates@[i].id < s0.next_id);
        assert(s0.has_invitation(s0.invitation_dates@[i].invitation_id));
    }
    assert forall|i: int, j: int| 0 <= i < j < s1.invitation_dates@.len() implies !((
    #[trigger] s1.invitation_dates@[i]).invitation_id == (
    #[trigger] s1.invitation_dates@[j]).invitation_id && s1.invitation_dates@[i].date
        == s1.invitation_dates@[j].date) by {
        assert(!(s0.invitation_dates@[i].invitation_id == s0.invitation_dates@[j].invitation_id
            && s0.invitation_dates@[i].date == s0.invitation_dates@[j].date));
    }
    assert forall|i: int, j: int| 0 <= i < j < s1.busydays@.len() implies !((
    #[trigger] s1.busydays@[i]).user_id == (#[trigger] s1.busydays@[j]).user_id
        && s1.busydays@[i].date == s1.busydays@[j].date) by {
        if j < old_len {
            assert(!(s0.busydays@[i].user_id == s0.busydays@[j].user_id && s0.busydays@[i].date
                == s0.busydays@[j].date));
        } else if i < old_len {
            if s0.busydays@[i].user_id == s1.busydays@[j].user_id && s0.busydays@[i].date
                == s1.busydays@[j].date {
                assert(s0.busy_on(s0.busydays@[i].user_id, s0.busydays@[i].date));
            }
        }
    }
    assert forall|i: int|
        #![trigger s1.busydays@[i]]
        0 <= i < s1.busydays@.len() implies {
        let b = s1.busydays@[i];
        &&& b.date.valid()
        &&& s1.claim_originates(b)
    } by {
        if i < old_len {
            let b = s0.busydays@[i];
            assert(s0.busydays@[i].id < s0.next_id);
            assert(s0.claim_originates(b));
            let k = choose|k: int|
                #![trigger s0.invitations@[k]]
                0 <= k < s0.invitations@.len() && {
                    let v = s0.invitations@[k];
                    &&& v.status == InvitationStatus::Accepted
                    &&& v.selected_date == Some(b.date)
                    &&& (b.user_id == v.from_user_id || b.user_id == v.to_user_id)
                };
            assert(k != idx);
            assert(s1.invitations@[k] == s0.invitations@[k]);
            assert(s1.claim_originates(s1.busydays@[i]));
        } else {
            assert(s1.invitations@[idx].status == InvitationStatus::Accepted);
            assert(s1.invitations@[idx].selected_date == Some(sel));
            assert(s1.claim_originates(s1.busydays@[i]));
        }
    }
    assert forall|i: int| 0 <= i < s1.busydays@.len() implies (#[trigger] s1.busydays@[i].id)
        < s1.next_id by {
        if i < old_len {
            assert(s0.busydays@[i].id < s0.next_id);
        }
    }
    assert(s1.ids_fresh());
    assert(s1.invitation_ids_unique());
    assert(s1.invitations_wf());
    assert(s1.invitation_dates_wf());
    assert(s1.busydays_wf());
}

/// Appending one pending invitation and its fresh proposed-date rows
/// keeps the state well-formed.
proof fn lemma_wf_after_create(
    s0: SchedulingState,
    s1: SchedulingState,
    inv: Invitation,
    rows: Seq<InvitationDate>,
)
    requires
        s0.wf(),
        inv.id == s0.next_id,
        inv.status == InvitationStatus::Pending,
        inv.selected_date is None,
        inv.from_user_id != inv.to_user_id,
        forall|k: int| 0 <= k < rows.len() ==> (#[trigger] rows[k]).invitation_id == inv.id,
        forall|k: int| 0 <= k < rows.len() ==> (#[trigger] rows[k]).date.valid(),
        forall|k1: int, k2: int|
            0 <= k1 < k2 < rows.len() ==> (#[trigger] rows[k1]).date != (#[trigger] rows[k2]).date,
        forall|k: int|
            0 <= k < rows.len() ==> (#[trigger] rows[k]).id == s0.next_id as int + 1 + k,
        s0.next_id + 1 + rows.len() <= u128::MAX,
        s1.invitations@ == s0.invitations@.push(inv),
        s1.invitation_dates@ == s0.invitation_dates@ + rows,
        s1.busydays@ == s0.busydays@,
        s1.friendships@ == s0.friendships@,
        s1.next_id == s0.next_id + 1 + rows.len(),
    ensures
        s1.wf(),
{
    lemma_queries_append(s0, s1);
    let old_len = s0.invitation_dates@.len() as int;
    assert forall|id: InvitationId| s0.has_invitation(id) implies #[trigger] s1.has_invitation(
        id,
    ) by {
        let j = choose|j: int|
            0 <= j < s0.invitations@.len() && (#[trigger] s0.invitations@[j].id) == id;
        assert(s1.invitations@[j].id == id);
    }
    assert forall|i: int| 0 <= i < s1.invitations@.len() implies (#[trigger] s1.invitations@[i].id)
        < s1.next_id by {
        if i < s0.invitations@.len() {
            assert(s0.invitations@[i].id < s0.next_id);
        }
    }
    assert forall|i: int, j: int| 0 <= i < j < s1.invitations@.len() implies (
    #[trigger] s1.invitations@[i].id) != (#[trigger] s1.invitations@[j].id) by {
        if j < s0.invitations@.len() {
            assert(s0.invitations@[i].id != s0.invitations@[j].id);
        } else {
            assert(s0.invitations@[i].id < s0.next_id);
        }
    }
    assert forall|i: int|
        #![trigger s1.invitations@[i]]
        0 <= i < s1.invitations@.len() implies {
        let v = s1.invitations@[i];
        &&& v.from_user_id != v.to_user_id
        &&& (v.status == InvitationStatus::Accepted <==> v.selected_date is Some)
        &&& (v.status == InvitationStatus::Accepted ==> {
            let sel = v.selected_date->0;
            &&& sel.valid()
            &&& s1.proposes(v.id, sel)
            &&& s1.busy_on(v.from_user_id, sel)
            &&& s1.busy_on(v.to_user_id, sel)
        })
    } by {
        if i < s0.invitations@.len() {
            assert(s0.invitations@[i].id < s0.next_id);
        }
    }
    assert forall|i: int|
        #![trigger s1.invitation_dates@[i]]
        0 <= i < s1.invitation_dates@.len() implies {
        let row = s1.invitation_dates@[i];
        &&& row.date.valid()
        &&& s1.has_invitation(row.invitation_id)
    } by {
        if i < old_len {
            assert(s0.invitation_dates@[i].id < s0.next_id);
            assert(s0.has_invitation(s0.invitation_dates@[i].invitation_id));
        } else {
            assert(s1.invitation_dates@[i] == rows[i - old_len]);
            assert(s1.invitations@[s0.invitations@.len() as int].id == inv.id);
        }
    }
    assert forall|i: int| 0 <= i < s1.invitation_dates@.len() implies (
    #[trigger] s1.invitation_dates@[i].id) < s1.next_id by {
        if i < old_len {
            assert(s0.invitation_dates@[i].id < s0.next_id);
        } else {
            assert(s1.invitation_dates@[i] == rows[i - old_len]);
        }
    }
    assert forall|i: int, j: int| 0 <= i < j < s1.invitation_dates@.len() implies !((
    #[trigger] s1.invitation_dates@[i]).invitation_id == (
    #[trigger] s1.invitation_dates@[j]).invitation_id && s1.invitation_dates@[i].date
        == s1.invitation_dates@[j].date) by {
        if j < old_len {
            assert(!(s0.invitation_dates@[i].invitation_id
                == s0.invitation_dates@[j].invitation_id && s0.invitation_dates@[i].date
                == s0.invitation_dates@[j].date));
        } else if i < old_len {
            assert(s1.invitation_dates@[j] == rows[j - old_len]);
            let rid = s0.invitation_dates@[i].invitation_id;
            assert(s0.invitation_dates@[i].id < s0.next_id);
            assert(s0.has_invitation(rid));
            let w = choose|w: int|
                0 <= w < s0.invitations@.len() && (#[trigger] s0.invitations@[w].id) == rid;
            assert(s0.invitations@[w].id < s0.next_id);
        } else {
            assert(s1.invitation_dates@[i] == rows[i - old_len]);
            assert(s1.invitation_dates@[j] == rows[j - old_len]);
        }
    }
    assert forall|i: int|
        #![trigger s1.busydays@[i]]
        0 <= i < s1.busydays@.len() implies {
        let b = s1.busydays@[i];
        &&& b.date.valid()
        &&& s1.claim_originates(b)
    } by {
        let b = s0.busydays@[i];
        assert(s0.busydays@[i].id < s0.next_id);
        assert(s0.claim_originates(b));
        let w = choose|w: int|
            #![trigger s0.invitations@[w]]
            0 <= w < s0.invitations@.len() && {
                let v = s0.invitations@[w];
                &&& v.status == InvitationStatus::Accepted
                &&& v.selected_date == Some(b.date)
                &&& (b.user_id == v.from_user_id || b.user_id == v.to_user_id)
            };
        assert(s1.invitations@[w] == s0.invitations@[w]);
    }
    assert(s1.ids_fresh());
    assert(s1.invitation_ids_unique());
    assert(s1.invitations_wf());
    assert(s1.invitation_dates_wf());
    assert(s1.busydays_wf());
}

/// Finds the index of the invitation row carrying `id`, if any.
pub(crate) fn find_invitation_index(v: &Vec<Invitation>, id: InvitationId) -> (r: Option<usize>)
    ensures
        match r {
            Some(i) => i < v@.len() && v@[i as int].id == id,
            None => forall|i: int| 0 <= i < v@.len() ==> (#[trigger] v@[i].id) != id,
        },
{
    let n = v.len();
    let mut i: usize = 0;
    while i < n
        invariant
            n == v@.len(),
            i <= n,
            forall|j: int| 0 <= j < i ==> (#[trigger] v@[j].id) != id,
        decreases n - i,
    {
        if v[i].id == id {
            return Some(i);
        }
        i += 1;
    }
    None
}

/// The proposed-date rows of invitation `id`, in store order.
fn collect_date_rows(state: &SchedulingState, id: InvitationId) -> (rows: Vec<InvitationDate>)
    ensures
        rows@ == date_rows_of(*state, id),
{
    let n = state.invitation_dates.len();
    let mut rows: Vec<InvitationDate> = Vec::new();
    let mut i: usize = 0;
    proof {
        assert(state.invitation_dates@.subrange(0, 0).filter(
            |r: InvitationDate| r.invitation_id == id,
        ) =~= Seq::<InvitationDate>::empty()) by {
            reveal(Seq::filter);
        }
    }
    while i < n
        invariant
            n == state.invitation_dates@.len(),
            i <= n,
            rows@ == state.invitation_dates@.subrange(0, i as int).filter(
                |r: InvitationDate| r.invitation_id == id,
            ),
        decreases n - i,
    {
        proof {
            lemma_filter_push(
                state.invitation_dates@.subrange(0, i as int),
                |r: InvitationDate| r.invitation_id == id,
                state.invitation_dates@[i as int],
            );
            assert(state.invitation_dates@.subrange(0, i + 1) =~= state.invitation_dates@.subrange(
                0,
                i as int,
            ).push(state.invitation_dates@[i as int]));
        }
        let row = state.invitation_dates[i];
        if row.invitation_id == id {
            rows.push(row);
        }
        i += 1;
    }
    proof {
        assert(state.invitation_dates@.subrange(0, n as int) =~= state.invitation_dates@);
    }
    rows
}

/// Reads one invitation together with its proposed dates, the dates in
/// ascending order.
fn load_invitation_response(state: &SchedulingState, id: InvitationId) -> (r: InvitationResponse)
    requires
        state.wf(),
        state.has_invitation(id),
    ensures
        is_invitation_view(r, state.invitation_at(id), *state),
{
    let idx = match find_invitation_index(&state.invitations, id) {
        Some(i) => i,
        None => {
            proof {
                assert(false);
            }
            0
        },
    };
    let inv = state.invitations[idx];
    proof {
        lemma_inv_index_is(*state, idx as int);
    }
    let rows = collect_date_rows(state, id);
    let sorted = sort_date_rows(rows);
    let m = sorted.len();
    let mut dates: Vec<InvitationDateResponse> = Vec::new();
    let mut j: usize = 0;
    while j < m
        invariant
            m == sorted@.len(),
            j <= m,
            dates@.len() == j,
            forall|k: int| 0 <= k < j ==> dates@[k] == date_response_of(#[trigger] sorted@[k]),
        decreases m - j,
    {
        let row = sorted[j];
        dates.push(
            InvitationDateResponse { id: row.id, invitation_id: row.invitation_id, date: row.date },
        );
        j += 1;
    }
    proof {
        assert(dates@.map_values(|r: InvitationDateResponse| date_row_of(r)) =~= sorted@);
        assert forall|a: int, b: int| 0 <= a < b < dates@.len() implies (
        #[trigger] dates@[a]).date.le((#[trigger] dates@[b]).date) by {
            assert(dates@[a] == date_response_of(sorted@[a]));
            assert(dates@[b] == date_response_of(sorted@[b]));
        }
    }
    InvitationResponse {
        id: inv.id,
        from_user_id: inv.from_user_id,
        to_user_id: inv.to_user_id,
        status: inv.status,
        selected_date: inv.selected_date,
        created_at: inv.created_at,
        dates,
    }
}

/// Reads one invitation by id.  Absent ids are not found; present ones
/// are shown only to the two participants.
pub fn get_invitation_by_id(state: &SchedulingState, me: UserId, id: InvitationId) -> (r: Result<
    InvitationResponse,
    ApiError,
>)
    requires
        state.wf(),
    ensures
        (r == Err::<InvitationResponse, ApiError>(ApiError::NotFound) <==> !state.has_invitation(
            id,
        )),
        (r == Err::<InvitationResponse, ApiError>(ApiError::Forbidden) <==> state.has_invitation(id)
            && state.invitation_at(id).from_user_id != me && state.invitation_at(id).to_user_id
            != me),
        (r is Ok <==> state.has_invitation(id) && (state.invitation_at(id).from_user_id == me
            || state.invitation_at(id).to_user_id == me)),
        r is Ok ==> is_invitation_view(r->Ok_0, state.invitation_at(id), *state),
{
    let idx = match find_invitation_index(&state.invitations, id) {
        Some(i) => i,
        None => {
            return Err(ApiError::NotFound);
        },
    };
    proof {
        lemma_inv_index_is(*state, idx as int);
    }
    let inv = &state.invitations[idx];
    if inv.from_user_id != me && inv.to_user_id != me {
        return Err(ApiError::Forbidden);
    }
    Ok(load_invitation_response(state, id))
}

/// The pending invitations addressed to `me`, in store order.
pub open spec fn incoming_pending(s: SchedulingState, me: UserId) -> Seq<Invitation> {
    s.invitations@.filter(
        |v: Invitation| v.to_user_id == me && v.status == InvitationStatus::Pending,
    )
}

/// The pending invitations sent by `me`, in store order.
pub open spec fn outgoing_pending(s: SchedulingState, me: UserId) -> Seq<Invitation> {
    s.invitations@.filter(
        |v: Invitation| v.from_user_id == me && v.status == InvitationStatus::Pending,
    )
}

/// Lists the pending invitations addressed to `me`, newest first (by
/// creation time, descending), each with its proposed dates.
pub fn get_incoming_invitations(state: &SchedulingState, me: UserId) -> (r: Vec<InvitationResponse>)
    requires
        state.wf(),
    ensures
        r@.len() == incoming_pending(*state, me).len(),
        r@.map_values(|resp: InvitationResponse| invitation_of_view(resp)).to_multiset()
            == incoming_pending(*state, me).to_multiset(),
        forall|i: int, j: int|
            0 <= i < j < r@.len() ==> (#[trigger] r@[i]).created_at >= (
            #[trigger] r@[j]).created_at,
        forall|k: int|
            0 <= k < r@.len() ==> is_invitation_view(
                #[trigger] r@[k],
                invitation_of_view(r@[k]),
                *state,
            ),
{
    let ghost pred = |v: Invitation| v.to_user_id == me && v.status == InvitationStatus::Pending;
    let n = state.invitations.len();
    let mut matched: Vec<Invitation> = Vec::new();
    let mut i: usize = 0;
    proof {
        assert(state.invitations@.subrange(0, 0).filter(pred) =~= Seq::<Invitation>::empty()) by {
            reveal(Seq::filter);
        }
    }
    while i < n
        invariant
            n == state.invitations@.len(),
            i <= n,
            matched@ == state.invitations@.subrange(0, i as int).filter(pred),
            pred == (|v: Invitation| v.to_user_id == me && v.status == InvitationStatus::Pending),
        decreases n - i,
    {
        proof {
            lemma_filter_push(
                state.invitations@.subrange(0, i as int),
                pred,
                state.invitations@[i as int],
            );
            assert(state.invitations@.subrange(0, i + 1) =~= state.invitations@.subrange(
                0,
                i as int,
            ).push(state.invitations@[i as int]));
        }
        let v = state.invitations[i];
        if v.to_user_id == me && matches!(v.status, InvitationStatus::Pending) {
            matched.push(v);
        }
        i += 1;
    }
    proof {
        assert(state.invitations@.subrange(0, n as int) =~= state.invitations@);
        assert(matched@ == incoming_pending(*state, me));
    }
    let ghost matchedv = matched@;
    let sorted = sort_invitations_desc(matched);
    let m = sorted.len();
    let mut r: Vec<InvitationResponse> = Vec::new();
    let mut k: usize = 0;
    while k < m
        invariant
            state.wf(),
            matchedv == state.invitations@.filter(pred),
            pred == (|v: Invitation| v.to_user_id == me && v.status == InvitationStatus::Pending),
            sorted@.to_multiset() == matchedv.to_multiset(),
            m == sorted@.len(),
            k <= m,
            r@.len() == k,
            forall|t: int|
                0 <= t < k ==> is_invitation_view(#[trigger] r@[t], sorted@[t], *state),
        decreases m - k,
    {
        let inv = sorted[k];
        proof {
            broadcast use vstd::seq_lib::group_to_multiset_ensures;

            assert(sorted@.contains(sorted@[k as int]));
            assert(matchedv.to_multiset().count(sorted@[k as int]) > 0);
            assert(matchedv.contains(sorted@[k as int]));
            let idx = choose|idx: int|
                0 <= idx < matchedv.len() && matchedv[idx] == sorted@[k as int];
            lemma_filter_origin(state.invitations@, pred, idx);
            let a = choose|a: int|
                0 <= a < state.invitations@.len() && (#[trigger] state.invitations@[a])
                    == state.invitations@.filter(pred)[idx];
            lemma_inv_index_is(*state, a);
        }
        let resp = load_invitation_response(state, inv.id);
        r.push(resp);
        k += 1;
    }
    proof {
        broadcast use vstd::seq_lib::group_to_multiset_ensures;

        assert(sorted@.to_multiset().len() == sorted@.len());
        assert(matchedv.to_multiset().len() == matchedv.len());
        assert forall|t: int| 0 <= t < r@.len() implies invitation_of_view(#[trigger] r@[t])
            == sorted@[t] by {
            assert(is_invitation_view(r@[t], sorted@[t], *state));
        }
        assert(r@.map_values(|resp: InvitationResponse| invitation_of_view(resp)) =~= sorted@);
        assert forall|i: int, j: int| 0 <= i < j < r@.len() implies (
        #[trigger] r@[i]).created_at >= (#[trigger] r@[j]).created_at by {
            assert(is_invitation_view(r@[i], sorted@[i], *state));
            assert(is_invitation_view(r@[j], sorted@[j], *state));
            assert(sorted@[i].created_at >= sorted@[j].created_at);
        }
    }
    r
}

/// Lists the pending invitations sent by `me`, newest first (by
/// creation time, descending), each with its proposed dates.
pub fn get_outgoing_invitations(state: &SchedulingState, me: UserId) -> (r: Vec<InvitationResponse>)
    requires
        state.wf(),
    ensures
        r@.len() == outgoing_pending(*state, me).len(),
        r@.map_values(|resp: InvitationResponse| invitation_of_view(resp)).to_multiset()
            == outgoing_pending(*state, me).to_multiset(),
        forall|i: int, j: int|
            0 <= i < j < r@.len() ==> (#[trigger] r@[i]).created_at >= (
            #[trigger] r@[j]).created_at,
        forall|k: int|
            0 <= k < r@.len() ==> is_invitation_view(
                #[trigger] r@[k],
                invitation_of_view(r@[k]),
                *state,
            ),
{
    let ghost pred = |v: Invitation| v.from_user_id == me && v.status == InvitationStatus::Pending;
    let n = state.invitations.len();
    let mut matched: Vec<Invitation> = Vec::new();
    let mut i: usize = 0;
    proof {
        assert(state.invitations@.subrange(0, 0).filter(pred) =~= Seq::<Invitation>::empty()) by {
            reveal(Seq::filter);
        }
    }
    while i < n
        invariant
            n == state.invitations@.len(),
            i <= n,
            matched@ == state.invitations@.subrange(0, i as int).filter(pred),
            pred == (|v: Invitation| v.from_user_id == me && v.status == InvitationStatus::Pending),
        decreases n - i,
    {
        proof {
            lemma_filter_push(
                state.invitations@.subrange(0, i as int),
                pred,
                state.invitations@[i as int],
            );
            assert(state.invitations@.subrange(0, i + 1) =~= state.invitations@.subrange(
                0,
                i as int,
            ).push(state.invitations@[i as int]));
        }
        let v = state.invitations[i];
        if v.from_user_id == me && matches!(v.status, InvitationStatus::Pending) {
            matched.push(v);
        }
        i += 1;
    }
    proof {
        assert(state.invitations@.subrange(0, n as int) =~= state.invitations@);
        assert(matched@ == outgoing_pending(*state, me));
    }
    let ghost matchedv = matched@;
    let sorted = sort_invitations_desc(matched);
    let m = sorted.len();
    let mut r: Vec<InvitationResponse> = Vec::new();
    let mut k: usize = 0;
    while k < m
        invariant
            state.wf(),
            matchedv == state.invitations@.filter(pred),
            pred == (|v: Invitation| v.from_user_id == me && v.status == InvitationStatus::Pending),
            sorted@.to_multiset() == matchedv.to_multiset(),
            m == sorted@.len(),
            k <= m,
            r@.len() == k,
            forall|t: int|
                0 <= t < k ==> is_invitation_view(#[trigger] r@[t], sorted@[t], *state),
        decreases m - k,
    {
        let inv = sorted[k];
        proof {
            broadcast use vstd::seq_lib::group_to_multiset_ensures;

            assert(sorted@.contains(sorted@[k as int]));
            assert(matchedv.to_multiset().count(sorted@[k as int]) > 0);
            assert(matchedv.contains(sorted@[k as int]));
            let idx = choose|idx: int|
                0 <= idx < matchedv.len() && matchedv[idx] == sorted@[k as int];
            lemma_filter_origin(state.invitations@, pred, idx);
            let a = choose|a: int|
                0 <= a < state.invitations@.len() && (#[trigger] state.invitations@[a])
                    == state.invitations@.filter(pred)[idx];
            lemma_inv_index_is(*state, a);
        }
        let resp = load_invitation_response(state, inv.id);
        r.push(resp);
        k += 1;
    }
    proof {
        broadcast use vstd::seq_lib::group_to_multiset_ensures;

        assert(sorted@.to_multiset().len() == sorted@.len());
        assert(matchedv.to_multiset().len() == matchedv.len());
        assert forall|t: int| 0 <= t < r@.len() implies invitation_of_view(#[trigger] r@[t])
            == sorted@[t] by {
            assert(is_invitation_view(r@[t], sorted@[t], *state));
        }
        assert(r@.map_values(|resp: InvitationResponse| invitation_of_view(resp)) =~= sorted@);
        assert forall|i: int, j: int| 0 <= i < j < r@.len() implies (
        #[trigger] r@[i]).created_at >= (#[trigger] r@[j]).created_at by {
            assert(is_invitation_view(r@[i], sorted@[i], *state));
            assert(is_invitation_view(r@[j], sorted@[j], *state));
            assert(sorted@[i].created_at >= sorted@[j].created_at);
        }
    }
    r
}

/// Declines a pending invitation addressed to `me`.  Resolved or foreign
/// invitations are reported as absent; nothing else changes either way.
pub fn decline_invitation(state: &mut SchedulingState, me: UserId, id: InvitationId) -> (r: Result<
    InvitationResponse,
    ApiError,
>)
    requires
        old(state).wf(),
    ensures
        final(state).wf(),
        r is Err ==> *final(state) == *old(state),
        (r is Err <==> !old(state).pending_for_recipient(id, me)),
        r is Err ==> r == Err::<InvitationResponse, ApiError>(ApiError::NotFound),
        r is Ok ==> ({
            let idx = old(state).inv_index(id);
            let updated = Invitation {
                status: InvitationStatus::Declined,
                ..old(state).invitation_at(id)
            };
            &&& final(state).invitations@ == old(state).invitations@.update(idx, updated)
            &&& final(state).invitation_dates@ == old(state).invitation_dates@
            &&& final(state).busydays@ == old(state).busydays@
            &&& final(state).friendships@ == old(state).friendships@
            &&& final(state).next_id == old(state).next_id
            &&& is_invitation_view(r->Ok_0, updated, *final(state))
        }),
{
    let idx = match find_invitation_index(&state.invitations, id) {
        Some(i) => i,
        None => {
            return Err(ApiError::NotFound);
        },
    };
    proof {
        lemma_inv_index_is(*old(state), idx as int);
    }
    let inv = state.invitations[idx];
    if inv.to_user_id != me || !matches!(inv.status, InvitationStatus::Pending) {
        return Err(ApiError::NotFound);
    }
    let updated = Invitation { status: InvitationStatus::Declined, ..inv };
    state.invitations.remove(idx);
    state.invitations.insert(idx, updated);
    proof {
        assert(state.invitations@ =~= old(state).invitations@.update(idx as int, updated));
        lemma_wf_after_resolve(*old(state), *state, idx as int);
        lemma_inv_index_is(*state, idx as int);
    }
    Ok(load_invitation_response(state, id))
}

/// Resolving the pending invitation at `idx` (declining it, here) keeps
/// the state well-formed: its id, participants, and absent selected date
/// survive, and every other row is untouched.
proof fn lemma_wf_after_resolve(s0: SchedulingState, s1: SchedulingState, idx: int)
    requires
        s0.wf(),
        0 <= idx < s0.invitations@.len(),
        s0.invitations@[idx].status == InvitationStatus::Pending,
        s1.invitations@ == s0.invitations@.update(
            idx,
            Invitation { status: InvitationStatus::Declined, ..s0.invitations@[idx] },
        ),
        s1.invitation_dates@ == s0.invitation_dates@,
        s1.busydays@ == s0.busydays@,
        s1.friendships@ == s0.friendships@,
        s1.next_id == s0.next_id,
    ensures
        s1.wf(),
{
    lemma_queries_unchanged(s0, s1);
    assert forall|id: InvitationId| #[trigger] s1.has_invitation(id) == s0.has_invitation(id) by {
        if s0.has_invitation(id) {
            let j = choose|j: int|
                0 <= j < s0.invitations@.len() && (#[trigger] s0.invitations@[j].id) == id;
            assert(s1.invitations@[j].id == id);
        }
        if s1.has_invitation(id) {
            let j = choose|j: int|
                0 <= j < s1.invitations@.len() && (#[trigger] s1.invitations@[j].id) == id;
            assert(s0.invitations@[j].id == id);
        }
    }
    assert forall|i: int| 0 <= i < s1.invitations@.len() implies (#[trigger] s1.invitations@[i].id)
        < s1.next_id by {
        assert(s0.invitations@[i].id < s0.next_id);
    }
    assert forall|i: int, j: int| 0 <= i < j < s1.invitations@.len() implies (
    #[trigger] s1.invitations@[i].id) != (#[trigger] s1.invitations@[j].id) by {
        assert(s0.invitations@[i].id != s0.invitations@[j].id);
    }
    assert forall|i: int|
        #![trigger s1.invitations@[i]]
        0 <= i < s1.invitations@.len() implies {
        let inv = s1.invitations@[i];
        &&& inv.from_user_id != inv.to_user_id
        &&& (inv.status == InvitationStatus::Accepted <==> inv.selected_date is Some)
        &&& (inv.status == InvitationStatus::Accepted ==> {
            let sel = inv.selected_date->0;
            &&& sel.valid()
            &&& s1.proposes(inv.id, sel)
            &&& s1.busy_on(inv.from_user_id, sel)
            &&& s1.busy_on(inv.to_user_id, sel)
        })
    } by {
        assert(s0.invitations@[i].id < s0.next_id);
    }
    assert forall|i: int|
        #![trigger s1.invitation_dates@[i]]
        0 <= i < s1.invitation_dates@.len() implies {
        let row = s1.invitation_dates@[i];
        &&& row.date.valid()
        &&& s1.has_invitation(row.invitation_id)
    } by {
        assert(s0.invitation_dates@[i].id < s0.next_id);
        assert(s0.has_invitation(s0.invitation_dates@[i].invitation_id));
    }
    assert forall|i: int|
        #![trigger s1.busydays@[i]]
        0 <= i < s1.busydays@.len() implies {
        let b = s1.busydays@[i];
        &&& b.date.valid()
        &&& s1.claim_originates(b)
    } by {
        let b = s0.busydays@[i];
        assert(s0.busydays@[i].id < s0.next_id);
        assert(s0.claim_originates(b));
        let k = choose|k: int|
            #![trigger s0.invitations@[k]]
            0 <= k < s0.invitations@.len() && {
                let inv = s0.invitations@[k];
                &&& inv.status == InvitationStatus::Accepted
                &&& inv.selected_date == Some(b.date)
                &&& (b.user_id == inv.from_user_id || b.user_id == inv.to_user_id)
            };
        assert(k != idx);
        assert(s1.invitations@[k] == s0.invitations@[k]);
    }
    assert(s1.ids_fresh());
    assert(s1.invitation_ids_unique());
    assert(s1.invitations_wf());
    assert(s1.invitation_dates_wf());
    assert(s1.busydays_wf());
}

/// With the proposed-date and busy-day tables untouched, membership
/// queries over them answer as before.
proof fn lemma_queries_unchanged(s0: SchedulingState, s1: SchedulingState)
    requires
        s1.invitation_dates@ == s0.invitation_dates@,
        s1.busydays@ == s0.busydays@,
    ensures
        forall|id: InvitationId, d: crate::date::Date| #[trigger]
            s1.proposes(id, d) == s0.proposes(id, d),
        forall|u: UserId, d: crate::date::Date| #[trigger] s1.busy_on(u, d) == s0.busy_on(u, d),
{
    assert forall|id: InvitationId, d: crate::date::Date| #[trigger]
        s1.proposes(id, d) == s0.proposes(id, d) by {
        if s0.proposes(id, d) {
            let j = choose|j: int|
                0 <= j < s0.invitation_dates@.len() && (
                #[trigger] s0.invitation_dates@[j]).invitation_id == id
                    && s0.invitation_dates@[j].date == d;
            assert(s1.invitation_dates@[j].invitation_id == id && s1.invitation_dates@[j].date
                == d);
        }
        if s1.proposes(id, d) {
            let j = choose|j: int|
                0 <= j < s1.invitation_dates@.len() && (
                #[trigger] s1.invitation_dates@[j]).invitation_id == id
                    && s1.invitation_dates@[j].date == d;
            assert(s0.invitation_dates@[j].invitation_id == id && s0.invitation_dates@[j].date
                == d);
        }
    }
    assert forall|u: UserId, d: crate::date::Date| #[trigger]
        s1.busy_on(u, d) == s0.busy_on(u, d) by {
        if s0.busy_on(u, d) {
            let j = choose|j: int|
                0 <= j < s0.busydays@.len() && (#[trigger] s0.busydays@[j]).user_id == u
                    && s0.busydays@[j].date == d;
            assert(s1.busydays@[j].user_id == u && s1.busydays@[j].date == d);
        }
        if s1.busy_on(u, d) {
            let j = choose|j: int|
                0 <= j < s1.busydays@.len() && (#[trigger] s1.busydays@[j]).user_id == u
                    && s1.busydays@[j].date == d;
            assert(s0.busydays@[j].user_id == u && s0.busydays@[j].date == d);
        }
    }
}

/// Cancels (deletes) a pending invitation sent by `me`, together with its
/// whole proposed-date set.  Resolved or foreign invitations are reported
/// as absent; nothing else changes either way.
pub fn cancel_invitation(state: &mut SchedulingState, me: UserId, id: InvitationId) -> (r: Result<
    (),
    ApiError,
>)
    requires
        old(state).wf(),
    ensures
        final(state).wf(),
        r is Err ==> *final(state) == *old(state),
        (r is Err <==> !old(state).pending_from_sender(id, me)),
        r is Err ==> r == Err::<(), ApiError>(ApiError::NotFound),
        r is Ok ==> ({
            let idx = old(state).inv_index(id);
            &&& final(state).invitations@ == old(state).invitations@.remove(idx)
            &&& final(state).invitation_dates@ == old(state).invitation_dates@.filter(
                |row: InvitationDate| row.invitation_id != id,
            )
            &&& final(state).busydays@ == old(state).busydays@
            &&& final(state).friendships@ == old(state).friendships@
            &&& final(state).next_id == old(state).next_id
        }),
{
    let idx = match find_invitation_index(&state.invitations, id) {
        Some(i) => i,
        None => {
            return Err(ApiError::NotFound);
        },
    };
    proof {
        lemma_inv_index_is(*old(state), idx as int);
    }
    let inv = state.invitations[idx];
    if inv.from_user_id != me || !matches!(inv.status, InvitationStatus::Pending) {
        return Err(ApiError::NotFound);
    }
    state.invitations.remove(idx);
    let n = state.invitation_dates.len();
    let mut kept: Vec<InvitationDate> = Vec::new();
    let mut i: usize = 0;
    proof {
        assert(old(state).invitation_dates@.subrange(0, 0).filter(
            |row: InvitationDate| row.invitation_id != id,
        ) =~= Seq::<InvitationDate>::empty()) by {
            reveal(Seq::filter);
        }
    }
    while i < n
        invariant
            n == state.invitation_dates@.len(),
            state.invitation_dates@ == old(state).invitation_dates@,
            i <= n,
            kept@ == old(state).invitation_dates@.subrange(0, i as int).filter(
                |row: InvitationDate| row.invitation_id != id,
            ),
        decreases n - i,
    {
        proof {
            lemma_filter_push(
                old(state).invitation_dates@.subrange(0, i as int),
                |row: InvitationDate| row.invitation_id != id,
                old(state).invitation_dates@[i as int],
            );
            assert(old(state).invitation_dates@.subrange(0, i + 1) =~= old(
                state,
            ).invitation_dates@.subrange(0, i as int).push(old(state).invitation_dates@[i as int]));
        }
        let row = state.invitation_dates[i];
        if row.invitation_id != id {
            kept.push(row);
        }
        i += 1;
    }
    proof {
        assert(old(state).invitation_dates@.subrange(0, n as int) =~= old(
            state,
        ).invitation_dates@);
    }
    state.invitation_dates = kept;
    proof {
        lemma_wf_after_cancel(*old(state), *state, idx as int);
    }
    Ok(())
}

/// Removing the pending invitation at `idx` and exactly its proposed-date
/// rows keeps the state well-formed.
proof fn lemma_wf_after_cancel(s0: SchedulingState, s1: SchedulingState, idx: int)
    requires
        s0.wf(),
        0 <= idx < s0.invitations@.len(),
        s0.invitations@[idx].status == InvitationStatus::Pending,
        s1.invitations@ == s0.invitations@.remove(idx),
        s1.invitation_dates@ == s0.invitation_dates@.filter(
            |row: InvitationDate| row.invitation_id != s0.invitations@[idx].id,
        ),
        s1.busydays@ == s0.busydays@,
        s1.friendships@ == s0.friendships@,
        s1.next_id == s0.next_id,
    ensures
        s1.wf(),
{
    let cancelled = s0.invitations@[idx].id;
    let pred = |row: InvitationDate| row.invitation_id != cancelled;
    assert forall|k: int| 0 <= k < s1.invitation_dates@.len() implies exists|j: int|
        0 <= j < s0.invitation_dates@.len() && (#[trigger] s0.invitation_dates@[j]) == (
        #[trigger] s1.invitation_dates@[k]) by {
        lemma_filter_origin(s0.invitation_dates@, pred, k);
    }
    assert forall|k: int| 0 <= k < s1.invitations@.len() implies #[trigger] s1.invitations@[k] == (
    if k < idx {
        s0.invitations@[k]
    } else {
        s0.invitations@[k + 1]
    }) by {}
    assert forall|u: UserId, d: Date| #[trigger] s1.busy_on(u, d) == s0.busy_on(u, d) by {
        if s0.busy_on(u, d) {
            let j = choose|j: int|
                0 <= j < s0.busydays@.len() && (#[trigger] s0.busydays@[j]).user_id == u
                    && s0.busydays@[j].date == d;
            assert(s1.busydays@[j].user_id == u && s1.busydays@[j].date == d);
        }
        if s1.busy_on(u, d) {
            let j = choose|j: int|
                0 <= j < s1.busydays@.len() && (#[trigger] s1.busydays@[j]).user_id == u
                    && s1.busydays@[j].date == d;
            assert(s0.busydays@[j].user_id == u && s0.busydays@[j].date == d);
        }
    }
    assert forall|i: int| 0 <= i < s1.invitations@.len() implies (#[trigger] s1.invitations@[i].id)
        < s1.next_id by {
        assert(s0.invitations@[if i < idx {
            i
        } else {
            i + 1
        }].id < s0.next_id);
    }
    assert forall|i: int, j: int| 0 <= i < j < s1.invitations@.len() implies (
    #[trigger] s1.invitations@[i].id) != (#[trigger] s1.invitations@[j].id) by {
        let i0 = if i < idx {
            i
        } else {
            i + 1
        };
        let j0 = if j < idx {
            j
        } else {
            j + 1
        };
        assert(s0.invitations@[i0].id != s0.invitations@[j0].id);
    }
    assert forall|i: int|
        #![trigger s1.invitations@[i]]
        0 <= i < s1.invitations@.len() implies {
        let v = s1.invitations@[i];
        &&& v.from_user_id != v.to_user_id
        &&& (v.status == InvitationStatus::Accepted <==> v.selected_date is Some)
        &&& (v.status == InvitationStatus::Accepted ==> {
            let s = v.selected_date->0;
            &&& s.valid()
            &&& s1.proposes(v.id, s)
            &&& s1.busy_on(v.from_user_id, s)
            &&& s1.busy_on(v.to_user_id, s)
        })
    } by {
        let i0 = if i < idx {
            i
        } else {
            i + 1
        };
        let v = s0.invitations@[i0];
        assert(s0.invitations@[i0].id < s0.next_id);
        if v.status == InvitationStatus::Accepted {
            let s = v.selected_date->0;
            let a = if i0 < idx {
                i0
            } else {
                idx
            };
            let b = if i0 < idx {
                idx
            } else {
                i0
            };
            assert(s0.invitations@[a].id != s0.invitations@[b].id);
            let w = choose|w: int|
                0 <= w < s0.invitation_dates@.len() && (
                #[trigger] s0.invitation_dates@[w]).invitation_id == v.id
                    && s0.invitation_dates@[w].date == s;
            assert(pred(s0.invitation_dates@[w]));
            s0.invitation_dates@.lemma_filter_contains(pred, w);
            assert(s1.invitation_dates@.contains(s0.invitation_dates@[w]));
            let k = choose|k: int|
                0 <= k < s1.invitation_dates@.len() && #[trigger] s1.invitation_dates@[k]
                    == s0.invitation_dates@[w];
            assert(s1.proposes(v.id, s));
        }
    }
    assert forall|i: int|
        #![trigger s1.invitation_dates@[i]]
        0 <= i < s1.invitation_dates@.len() implies {
        let row = s1.invitation_dates@[i];
        &&& row.date.valid()
        &&& row.invitation_id != cancelled
        &&& s1.has_invitation(row.invitation_id)
    } by {
        s0.invitation_dates@.lemma_filter_pred(pred, i);
        let j = choose|j: int|
            0 <= j < s0.invitation_dates@.len() && #[trigger] s0.invitation_dates@[j]
                == s1.invitation_dates@[i];
        assert(s0.invitation_dates@[j].id < s0.next_id);
        let rid = s0.invitation_dates@[j].invitation_id;
        assert(s0.has_invitation(rid));
        let w = choose|w: int|
            0 <= w < s0.invitations@.len() && (#[trigger] s0.invitations@[w].id) == rid;
        assert(w != idx);
        let w1 = if w < idx {
            w
        } else {
            w - 1
        };
        assert(s1.invitations@[w1].id == rid);
    }
    assert forall|i: int, j: int| 0 <= i < j < s1.invitation_dates@.len() implies !((
    #[trigger] s1.invitation_dates@[i]).invitation_id == (
    #[trigger] s1.invitation_dates@[j]).invitation_id && s1.invitation_dates@[i].date
        == s1.invitation_dates@[j].date) by {
        let a = choose|a: int|
            0 <= a < s0.invitation_dates@.len() && #[trigger] s0.invitation_dates@[a]
                == s1.invitation_dates@[i];
        let b = choose|b: int|
            0 <= b < s0.invitation_dates@.len() && #[trigger] s0.invitation_dates@[b]
                == s1.invitation_dates@[j];
        if s1.invitation_dates@[i].invitation_id == s1.invitation_dates@[j].invitation_id
            && s1.invitation_dates@[i].date == s1.invitation_dates@[j].date {
            if a == b {
                lemma_filter_distinct_indices(s0.invitation_dates@, pred, i, j);
            } else {
                let a1 = if a < b {
                    a
                } else {
                    b
                };
                let b1 = if a < b {
                    b
                } else {
                    a
                };
                assert(!(s0.invitation_dates@[a1].invitation_id
                    == s0.invitation_dates@[b1].invitation_id && s0.invitation_dates@[a1].date
                    == s0.invitation_dates@[b1].date));
            }
        }
    }
    assert forall|i: int|
        #![trigger s1.busydays@[i]]
        0 <= i < s1.busydays@.len() implies {
        let b = s1.busydays@[i];
        &&& b.date.valid()
        &&& s1.claim_originates(b)
    } by {
        let b = s0.busydays@[i];
        assert(s0.busydays@[i].id < s0.next_id);
        assert(s0.claim_originates(b));
        let k = choose|k: int|
            #![trigger s0.invitations@[k]]
            0 <= k < s0.invitations@.len() && {
                let v = s0.invitations@[k];
                &&& v.status == InvitationStatus::Accepted
                &&& v.selected_date == Some(b.date)
                &&& (b.user_id == v.from_user_id || b.user_id == v.to_user_id)
            };
        assert(k != idx);
        let k1 = if k < idx {
            k
        } else {
            k - 1
        };
        assert(s1.invitations@[k1] == s0.invitations@[k]);
    }
    assert(s1.ids_fresh());
    assert(s1.invitation_ids_unique());
    assert(s1.invitations_wf());
    assert(s1.invitation_dates_wf());
    assert(s1.busydays_wf());
}

/// Two distinct positions of a filtered sequence cannot both have come
/// from one row of the input: a filter keeps each row at most once.
proof fn lemma_filter_distinct_indices<A>(s: Seq<A>, pred: spec_fn(A) -> bool, i: int, j: int)
    requires
        0 <= i < j < s.filter(pred).len(),
    ensures
        exists|a: int, b: int|
            0 <= a < b < s.len() && s[a] == #[trigger] s.filter(pred)[i] && s[b]
                == #[trigger] s.filter(pred)[j],
    decreases s.len(),
{
    reveal(Seq::filter);
    if s.len() > 0 {
        let inner = s.drop_last().filter(pred);
        if pred(s.last()) {
            if j < inner.len() {
                lemma_filter_distinct_indices(s.drop_last(), pred, i, j);
                let (a, b) = choose|a: int, b: int|
                    0 <= a < b < s.drop_last().len() && s.drop_last()[a] == #[trigger] s.drop_last(
                    ).filter(pred)[i] && s.drop_last()[b] == s.drop_last().filter(pred)[j];
                assert(s[a] == s.filter(pred)[i] && s[b] == s.filter(pred)[j]);
            } else {
                assert(j == inner.len());
                assert(s.filter(pred)[j] == s.last());
                lemma_filter_origin(s.drop_last(), pred, i);
                let a = choose|a: int|
                    0 <= a < s.drop_last().len() && #[trigger] s.drop_last()[a] == s.drop_last(
                    ).filter(pred)[i];
                assert(s[a] == s.filter(pred)[i] && s[s.len() - 1] == s.filter(pred)[j]);
            }
        } else {
            lemma_filter_distinct_indices(s.drop_last(), pred, i, j);
            let (a, b) = choose|a: int, b: int|
                0 <= a < b < s.drop_last().len() && s.drop_last()[a] == #[trigger] s.drop_last(
                ).filter(pred)[i] && s.drop_last()[b] == s.drop_last().filter(pred)[j];
            assert(s[a] == s.filter(pred)[i] && s[b] == s.filter(pred)[j]);
        }
    }
}

/// Every row of a filtered sequence is a row of the input.
pub(crate) proof fn lemma_filter_origin<A>(s: Seq<A>, pred: spec_fn(A) -> bool, i: int)
    requires
        0 <= i < s.filter(pred).len(),
    ensures
        exists|a: int| 0 <= a < s.len() && #[trigger] s[a] == s.filter(pred)[i],
    decreases s.len(),
{
    reveal(Seq::filter);
    if s.len() > 0 {
        let inner = s.drop_last().filter(pred);
        if pred(s.last()) && i == inner.len() {
            assert(s[s.len() - 1] == s.filter(pred)[i]);
        } else {
            lemma_filter_origin(s.drop_last(), pred, i);
            let a = choose|a: int|
                0 <= a < s.drop_last().len() && #[trigger] s.drop_last()[a] == s.drop_last().filter(
                    pred,
                )[i];
            assert(s[a] == s.filter(pred)[i]);
        }
    }
}

/// Claims present before rows are appended to a table are still present
/// afterwards.
proof fn lemma_queries_append(s0: SchedulingState, s1: SchedulingState)
    requires
        s1.invitation_dates@.len() >= s0.invitation_dates@.len(),
        forall|j: int|
            0 <= j < s0.invitation_dates@.len() ==> #[trigger] s1.invitation_dates@[j]
                == s0.invitation_dates@[j],
        s1.busydays@.len() >= s0.busydays@.len(),
        forall|j: int|
            0 <= j < s0.busydays@.len() ==> #[trigger] s1.busydays@[j] == s0.busydays@[j],
    ensures
        forall|id: InvitationId, d: crate::date::Date|
            s0.proposes(id, d) ==> #[trigger] s1.proposes(id, d),
        forall|u: UserId, d: crate::date::Date| s0.busy_on(u, d) ==> #[trigger] s1.busy_on(u, d),
{
    assert forall|id: InvitationId, d: crate::date::Date| s0.proposes(id, d) implies #[trigger]
        s1.proposes(id, d) by {
        let j = choose|j: int|
            0 <= j < s0.invitation_dates@.len() && (
            #[trigger] s0.invitation_dates@[j]).invitation_id == id
                && s0.invitation_dates@[j].date == d;
        assert(s1.invitation_dates@[j].invitation_id == id && s1.invitation_dates@[j].date == d);
    }
    assert forall|u: UserId, d: crate::date::Date| s0.busy_on(u, d) implies #[trigger] s1.busy_on(
        u,
        d,
    ) by {
        let j = choose|j: int|
            0 <= j < s0.busydays@.len() && (#[trigger] s0.busydays@[j]).user_id == u
                && s0.busydays@[j].date == d;
        assert(s1.busydays@[j].user_id == u && s1.busydays@[j].date == d);
    }
}

} // verus!
