//! Friendship rows: the trust check the scheduler consults, and the request
//! bookkeeping around it — requesting, accepting, rejecting, removing,
//! and listing relationships.

use vstd::prelude::*;

use crate::error::ApiError;
use crate::model::{Friendship, FriendshipStatus, UserId};
use crate::sort::lemma_filter_push;
use crate::store::SchedulingState;

verus! {

/// `row` is a pending friend request from `sender` to `recipient`.
pub open spec fn request_matches(row: Friendship, sender: UserId, recipient: UserId) -> bool {
    &&& row.user_id == sender
    &&& row.friend_id == recipient
    &&& row.status == FriendshipStatus::Pending
}

/// Some pending friend request from `sender` to `recipient` is stored.
pub open spec fn has_pending_request(
    s: SchedulingState,
    sender: UserId,
    recipient: UserId,
) -> bool {
    exists|j: int|
        0 <= j < s.friendships@.len() && request_matches(
            #[trigger] s.friendships@[j],
            sender,
            recipient,
        )
}

/// `row` is an accepted friendship linking `a` and `b`, in either
/// orientation.
pub open spec fn accepted_link(row: Friendship, a: UserId, b: UserId) -> bool {
    &&& row.status == FriendshipStatus::Accepted
    &&& ((row.user_id == a && row.friend_id == b) || (row.user_id == b && row.friend_id == a))
}

/// Whether an accepted friendship row links `user_a` and `user_b`, in
/// either orientation.
pub fn are_users_accepted_friends(state: &SchedulingState, user_a: UserId, user_b: UserId) -> (r:
    bool)
    ensures
        r == state.are_friends(user_a, user_b),
{
    let n = state.friendships.len();
    let mut i: usize = 0;
    while i < n
        invariant
            n == state.friendships@.len(),
            i <= n,
            forall|j: int|
                0 <= j < i ==> !accepted_link(#[trigger] state.friendships@[j], user_a, user_b),
        decreases n - i,
    {
        let row = &state.friendships[i];
        if matches!(row.status, FriendshipStatus::Accepted) && ((row.user_id == user_a
            && row.friend_id == user_b) || (row.user_id == user_b && row.friend_id == user_a)) {
            return true;
        }
        i += 1;
    }
    false
}

/// Changing only the friendship table — with every row id still below
/// the id counter — keeps the state well-formed: no other invariant
/// reads it.
proof fn lemma_wf_after_friendship_change(s0: SchedulingState, s1: SchedulingState)
    requires
        s0.wf(),
        s1.invitations@ == s0.invitations@,
        s1.invitation_dates@ == s0.invitation_dates@,
        s1.busydays@ == s0.busydays@,
        s0.next_id <= s1.next_id,
        forall|i: int|
            0 <= i < s1.friendships@.len() ==> (#[trigger] s1.friendships@[i].id) < s1.next_id,
    ensures
        s1.wf(),
{
    assert forall|id: u128, d: crate::date::Date| #[trigger] s1.proposes(id, d) == s0.proposes(
        id,
        d,
    ) by {
        if s0.proposes(id, d) {
            let j = choose|j: int|
                0 <= j < s0.invitation_dates@.len() && (
                #[trigger] s0.invitation_dates@[j]).invitation_id == id
                    && s0.invitation_dates@[j].date == d;
            assert(s1.invitation_dates@[j].invitation_id == id && s1.invitation_dates@[j].date
                == d);
        }
        if s1.proposes(id, d) {
            let j = choose|j: int|
                0 <= j < s1.invitation_dates@.len() && (
                #[trigger] s1.invitation_dates@[j]).invitation_id == id
                    && s1.invitation_dates@[j].date == d;
            assert(s0.invitation_dates@[j].invitation_id == id && s0.invitation_dates@[j].date
                == d);
        }
    }
    assert forall|u: UserId, d: crate::date::Date| #[trigger]
        s1.busy_on(u, d) == s0.busy_on(u, d) by {
        if s0.busy_on(u, d) {
            let j = choose|j: int|
                0 <= j < s0.busydays@.len() && (#[trigger] s0.busydays@[j]).user_id == u
                    && s0.busydays@[j].date == d;
            assert(s1.busydays@[j].user_id == u && s1.busydays@[j].date == d);
        }
        if s1.busy_on(u, d) {
            let j = choose|j: int|
                0 <= j < s1.busydays@.len() && (#[trigger] s1.busydays@[j]).user_id == u
                    && s1.busydays@[j].date == d;
            assert(s0.busydays@[j].user_id == u && s0.busydays@[j].date == d);
        }
    }
    assert forall|id: u128| #[trigger] s1.has_invitation(id) == s0.has_invitation(id) by {
        if s0.has_invitation(id) {
            let j = choose|j: int|
                0 <= j < s0.invitations@.len() && (#[trigger] s0.invitations@[j].id) == id;
            assert(s1.invitations@[j].id == id);
        }
        if s1.has_invitation(id) {
            let j = choose|j: int|
                0 <= j < s1.invitations@.len() && (#[trigger] s1.invitations@[j].id) == id;
            assert(s0.invitations@[j].id == id);
        }
    }
    assert forall|i: int| 0 <= i < s1.invitations@.len() implies (#[trigger] s1.invitations@[i].id)
        < s1.next_id by {
        assert(s0.invitations@[i].id < s0.next_id);
    }
    assert forall|i: int, j: int| 0 <= i < j < s1.invitations@.len() implies (
    #[trigger] s1.invitations@[i].id) != (#[trigger] s1.invitations@[j].id) by {
        assert(s0.invitations@[i].id != s0.invitations@[j].id);
    }
    assert forall|i: int|
        #![trigger s1.invitations@[i]]
        0 <= i < s1.invitations@.len() implies {
        let v = s1.invitations@[i];
        &&& v.from_user_id != v.to_user_id
        &&& (v.status == crate::model::InvitationStatus::Accepted <==> v.selected_date is Some)
        &&& (v.status == crate::model::InvitationStatus::Accepted ==> {
            let sel = v.selected_date->0;
            &&& sel.valid()
            &&& s1.proposes(v.id, sel)
            &&& s1.busy_on(v.from_user_id, sel)
            &&& s1.busy_on(v.to_user_id, sel)
        })
    } by {
        assert(s0.invitations@[i].id < s0.next_id);
    }
    assert forall|i: int|
        #![trigger s1.invitation_dates@[i]]
        0 <= i < s1.invitation_dates@.len() implies {
        let row = s1.invitation_dates@[i];
        &&& row.date.valid()
        &&& s1.has_invitation(row.invitation_id)
        &&& row.id < s1.next_id
    } by {
        assert(s0.invitation_dates@[i].id < s0.next_id);
        assert(s0.has_invitation(s0.invitation_dates@[i].invitation_id));
    }
    assert forall|i: int, j: int| 0 <= i < j < s1.invitation_dates@.len() implies !((
    #[trigger] s1.invitation_dates@[i]).invitation_id == (
    #[trigger] s1.invitation_dates@[j]).invitation_id && s1.invitation_dates@[i].date
        == s1.invitation_dates@[j].date) by {
        assert(!(s0.invitation_dates@[i].invitation_id == s0.invitation_dates@[j].invitation_id
            && s0.invitation_dates@[i].date == s0.invitation_dates@[j].date));
    }
    assert forall|i: int|
        #![trigger s1.busydays@[i]]
        0 <= i < s1.busydays@.len() implies {
        let b = s1.busydays@[i];
        &&& b.date.valid()
        &&& s1.claim_originates(b)
        &&& b.id < s1.next_id
    } by {
        let b = s0.busydays@[i];
        assert(s0.busydays@[i].id < s0.next_id);
        assert(s0.claim_originates(b));
        let k = choose|k: int|
            #![trigger s0.invitations@[k]]
            0 <= k < s0.invitations@.len() && {
                let v = s0.invitations@[k];
                &&& v.status == crate::model::InvitationStatus::Accepted
                &&& v.selected_date == Some(b.date)
                &&& (b.user_id == v.from_user_id || b.user_id == v.to_user_id)
            };
        assert(s1.invitations@[k] == s0.invitations@[k]);
    }
    assert(s1.ids_fresh());
    assert(s1.invitation_ids_unique());
    assert(s1.invitations_wf());
    assert(s1.invitation_dates_wf());
    assert(s1.busydays_wf());
}

/// Records a pending friend request from `me` to `friend_id`.  Asking
/// for oneself is malformed.
pub fn friend_request(state: &mut SchedulingState, me: UserId, friend_id: UserId) -> (r: Result<
    (),
    ApiError,
>)
    requires
        old(state).wf(),
    ensures
        final(state).wf(),
        r is Err ==> *final(state) == *old(state),
        (r == Err::<(), ApiError>(ApiError::BadRequest) <==> friend_id == me),
        (r == Err::<(), ApiError>(ApiError::Internal) <==> friend_id != me && old(state).next_id + 1
            > u128::MAX),
        (r is Ok <==> friend_id != me && old(state).next_id + 1 <= u128::MAX),
        r is Ok ==> ({
            &&& final(state).friendships@ == old(state).friendships@.push(
                Friendship {
                    id: old(state).next_id,
                    user_id: me,
                    friend_id,
                    status: FriendshipStatus::Pending,
                },
            )
            &&& final(state).invitations@ == old(state).invitations@
            &&& final(state).invitation_dates@ == old(state).invitation_dates@
            &&& final(state).busydays@ == old(state).busydays@
            &&& final(state).next_id == old(state).next_id + 1
        }),
{
    if friend_id == me {
        return Err(ApiError::BadRequest);
    }
    if state.next_id == u128::MAX {
        return Err(ApiError::Internal);
    }
    let row = Friendship {
        id: state.next_id,
        user_id: me,
        friend_id,
        status: FriendshipStatus::Pending,
    };
    state.friendships.push(row);
    state.next_id = state.next_id + 1;
    proof {
        lemma_wf_after_friendship_change(*old(state), *state);
    }
    Ok(())
}

/// Accepts the first stored pending friend request from `sender` to
/// `me`, flipping it to accepted.  Accepting oneself is malformed; a
/// missing request is not found.
pub fn accept_friend_request(state: &mut SchedulingState, me: UserId, sender: UserId) -> (r: Result<
    (),
    ApiError,
>)
    requires
        old(state).wf(),
    ensures
        final(state).wf(),
        r is Err ==> *final(state) == *old(state),
        (r == Err::<(), ApiError>(ApiError::BadRequest) <==> sender == me),
        (r == Err::<(), ApiError>(ApiError::NotFound) <==> sender != me && !has_pending_request(
            *old(state),
            sender,
            me,
        )),
        (r is Ok <==> sender != me && has_pending_request(*old(state), sender, me)),
        r is Ok ==> exists|j: int|
            #![trigger old(state).friendships@[j]]
            {
                &&& 0 <= j < old(state).friendships@.len()
                &&& request_matches(old(state).friendships@[j], sender, me)
                &&& forall|k: int|
                    0 <= k < j ==> !request_matches(
                        #[trigger] old(state).friendships@[k],
                        sender,
                        me,
                    )
                &&& final(state).friendships@ == old(state).friendships@.update(
                    j,
                    Friendship { status: FriendshipStatus::Accepted, ..old(state).friendships@[j] },
                )
            },
        r is Ok ==> ({
            &&& final(state).invitations@ == old(state).invitations@
            &&& final(state).invitation_dates@ == old(state).invitation_dates@
            &&& final(state).busydays@ == old(state).busydays@
            &&& final(state).next_id == old(state).next_id
        }),
{
    if sender == me {
        return Err(ApiError::BadRequest);
    }
    let n = state.friendships.len();
    let mut i: usize = 0;
    while i < n
        invariant
            *state == *old(state),
            old(state).wf(),
            sender != me,
            n == state.friendships@.len(),
            i <= n,
            forall|k: int|
                0 <= k < i ==> !request_matches(#[trigger] state.friendships@[k], sender, me),
        decreases n - i,
    {
        let row = state.friendships[i];
        if row.user_id == sender && row.friend_id == me && matches!(
            row.status,
            FriendshipStatus::Pending,
        ) {
            let updated = Friendship { status: FriendshipStatus::Accepted, ..row };
            state.friendships.remove(i);
            state.friendships.insert(i, updated);
            proof {
                assert(state.friendships@ =~= old(state).friendships@.update(i as int, updated));
                assert forall|k: int| 0 <= k < state.friendships@.len() implies (
                #[trigger] state.friendships@[k].id) < state.next_id by {
                    assert(old(state).friendships@[k].id < old(state).next_id);
                }
                lemma_wf_after_friendship_change(*old(state), *state);
                assert(request_matches(old(state).friendships@[i as int], sender, me));
            }
            return Ok(());
        }
        i += 1;
    }
    Err(ApiError::NotFound)
}

/// Deletes the first stored pending friend request from `sender` to
/// `me`.  Rejecting oneself is malformed; a missing request is not
/// found.
pub fn reject_friend_request(state: &mut SchedulingState, me: UserId, sender: UserId) -> (r: Result<
    (),
    ApiError,
>)
    requires
        old(state).wf(),
    ensures
        final(state).wf(),
        r is Err ==> *final(state) == *old(state),
        (r == Err::<(), ApiError>(ApiError::BadRequest) <==> sender == me),
        (r == Err::<(), ApiError>(ApiError::NotFound) <==> sender != me && !has_pending_request(
            *old(state),
            sender,
            me,
        )),
        (r is Ok <==> sender != me && has_pending_request(*old(state), sender, me)),
        r is Ok ==> exists|j: int|
            #![trigger old(state).friendships@[j]]
            {
                &&& 0 <= j < old(state).friendships@.len()
                &&& request_matches(old(state).friendships@[j], sender, me)
                &&& forall|k: int|
                    0 <= k < j ==> !request_matches(
                        #[trigger] old(state).friendships@[k],
                        sender,
                        me,
                    )
                &&& final(state).friendships@ == old(state).friendships@.remove(j)
            },
        r is Ok ==> ({
            &&& final(state).invitations@ == old(state).invitations@
            &&& final(state).invitation_dates@ == old(state).invitation_dates@
            &&& final(state).busydays@ == old(state).busydays@
            &&& final(state).next_id == old(state).next_id
        }),
{
    if sender == me {
        return Err(ApiError::BadRequest);
    }
    let n = state.friendships.len();
    let mut i: usize = 0;
    while i < n
        invariant
            *state == *old(state),
            old(state).wf(),
            sender != me,
            n == state.friendships@.len(),
            i <= n,
            forall|k: int|
                0 <= k < i ==> !request_matches(#[trigger] state.friendships@[k], sender, me),
        decreases n - i,
    {
        let row = state.friendships[i];
        if row.user_id == sender && row.friend_id == me && matches!(
            row.status,
            FriendshipStatus::Pending,
        ) {
            state.friendships.remove(i);
            proof {
                assert forall|k: int| 0 <= k < state.friendships@.len() implies (
                #[trigger] state.friendships@[k].id) < state.next_id by {
                    let k0 = if k < i as int {
                        k
                    } else {
                        k + 1
                    };
                    assert(old(state).friendships@[k0].id < old(state).next_id);
                }
                lemma_wf_after_friendship_change(*old(state), *state);
                assert(request_matches(old(state).friendships@[i as int], sender, me));
            }
            return Ok(());
        }
        i += 1;
    }
    Err(ApiError::NotFound)
}

/// Deletes every accepted friendship row linking `me` and `friend_id`.
/// Removing oneself is malformed; if no such row exists, nothing is
/// found.
pub fn remove_friend(state: &mut SchedulingState, me: UserId, friend_id: UserId) -> (r: Result<
    (),
    ApiError,
>)
    requires
        old(state).wf(),
    ensures
        final(state).wf(),
        r is Err ==> *final(state) == *old(state),
        (r == Err::<(), ApiError>(ApiError::BadRequest) <==> friend_id == me),
        (r == Err::<(), ApiError>(ApiError::NotFound) <==> friend_id != me && !old(
            state,
        ).are_friends(me, friend_id)),
        (r is Ok <==> friend_id != me && old(state).are_friends(me, friend_id)),
        r is Ok ==> ({
            &&& final(state).friendships@ == old(state).friendships@.filter(
                |row: Friendship| !accepted_link(row, me, friend_id),
            )
            &&& final(state).invitations@ == old(state).invitations@
            &&& final(state).invitation_dates@ == old(state).invitation_dates@
            &&& final(state).busydays@ == old(state).busydays@
            &&& final(state).next_id == old(state).next_id
        }),
{
    if friend_id == me {
        return Err(ApiError::BadRequest);
    }
    let ghost pred = |row: Friendship| !accepted_link(row, me, friend_id);
    let n = state.friendships.len();
    let mut kept: Vec<Friendship> = Vec::new();
    let mut found = false;
    let mut i: usize = 0;
    proof {
        assert(state.friendships@.subrange(0, 0).filter(pred) =~= Seq::<Friendship>::empty()) by {
            reveal(Seq::filter);
        }
    }
    while i < n
        invariant
            *state == *old(state),
            old(state).wf(),
            friend_id != me,
            n == state.friendships@.len(),
            i <= n,
            kept@ == state.friendships@.subrange(0, i as int).filter(pred),
            pred == (|row: Friendship| !accepted_link(row, me, friend_id)),
            found <==> exists|j: int|
                0 <= j < i && accepted_link(#[trigger] state.friendships@[j], me, friend_id),
        decreases n - i,
    {
        proof {
            lemma_filter_push(
                state.friendships@.subrange(0, i as int),
                pred,
                state.friendships@[i as int],
            );
            assert(state.friendships@.subrange(0, i + 1) =~= state.friendships@.subrange(
                0,
                i as int,
            ).push(state.friendships@[i as int]));
        }
        let row = state.friendships[i];
        if matches!(row.status, FriendshipStatus::Accepted) && ((row.user_id == me && row.friend_id
            == friend_id) || (row.user_id == friend_id && row.friend_id == me)) {
            found = true;
        } else {
            kept.push(row);
        }
        i += 1;
    }
    proof {
        assert(state.friendships@.subrange(0, n as int) =~= state.friendships@);
    }
    if !found {
        return Err(ApiError::NotFound);
    }
    let ghost keptv = kept@;
    state.friendships = kept;
    proof {
        assert forall|k: int| 0 <= k < state.friendships@.len() implies (
        #[trigger] state.friendships@[k].id) < state.next_id by {
            crate::engine::lemma_filter_origin(old(state).friendships@, pred, k);
            let a = choose|a: int|
                0 <= a < old(state).friendships@.len() && (#[trigger] old(state).friendships@[a])
                    == old(state).friendships@.filter(pred)[k];
            assert(old(state).friendships@[a].id < old(state).next_id);
        }
        lemma_wf_after_friendship_change(*old(state), *state);
    }
    Ok(())
}

/// Whether the vector already lists this user.
fn contains_user(v: &Vec<UserId>, u: UserId) -> (r: bool)
    ensures
        r == v@.contains(u),
{
    let n = v.len();
    let mut i: usize = 0;
    while i < n
        invariant
            n == v@.len(),
            i <= n,
            forall|j: int| 0 <= j < i ==> v@[j] != u,
        decreases n - i,
    {
        if v[i] == u {
            return true;
        }
        i += 1;
    }
    false
}

/// The accepted friends of `me`: each listed once, a user exactly when
/// some accepted row links them with `me`.  (The order is not part of
/// the contract.)
pub fn get_friends(state: &SchedulingState, me: UserId) -> (r: Vec<UserId>)
    ensures
        forall|k1: int, k2: int| 0 <= k1 < k2 < r@.len() ==> r@[k1] != r@[k2],
        forall|u: UserId|
            #[trigger] r@.contains(u) <==> exists|j: int|
                0 <= j < state.friendships@.len() && accepted_link(
                    #[trigger] state.friendships@[j],
                    me,
                    u,
                ),
{
    let n = state.friendships.len();
    let mut r: Vec<UserId> = Vec::new();
    let mut i: usize = 0;
    while i < n
        invariant
            n == state.friendships@.len(),
            i <= n,
            forall|k1: int, k2: int| 0 <= k1 < k2 < r@.len() ==> r@[k1] != r@[k2],
            forall|u: UserId|
                #[trigger] r@.contains(u) <==> exists|j: int|
                    0 <= j < i && accepted_link(#[trigger] state.friendships@[j], me, u),
        decreases n - i,
    {
        let row = state.friendships[i];
        if matches!(row.status, FriendshipStatus::Accepted) && (row.user_id == me || row.friend_id
            == me) {
            let other = if row.user_id == me {
                row.friend_id
            } else {
                row.user_id
            };
            if !contains_user(&r, other) {
                let ghost r0 = r@;
                r.push(other);
                proof {
                    assert forall|u: UserId| #[trigger]
                        r@.contains(u) <==> exists|j: int|
                            0 <= j < i + 1 && accepted_link(
                                #[trigger] state.friendships@[j],
                                me,
                                u,
                            ) by {
                        assert(r@ == r0.push(other));
                        if r@.contains(u) {
                            let w = choose|w: int| 0 <= w < r@.len() && r@[w] == u;
                            if w < r0.len() {
                                assert(r0.contains(u));
                            } else {
                                assert(u == other);
                                assert(accepted_link(state.friendships@[i as int], me, u));
                            }
                        }
                        if exists|j: int|
                            0 <= j < i + 1 && accepted_link(
                                #[trigger] state.friendships@[j],
                                me,
                                u,
                            ) {
                            let j = choose|j: int|
                                0 <= j < i + 1 && accepted_link(
                                    #[trigger] state.friendships@[j],
                                    me,
                                    u,
                                );
                            if j < i {
                                assert(r0.contains(u));
                                let w = choose|w: int| 0 <= w < r0.len() && r0[w] == u;
                                assert(r@[w] == u);
                            } else {
                                assert(u == other);
                                assert(r@[r0.len() as int] == u);
                            }
                        }
                    }
                }
            } else {
                proof {
                    assert forall|u: UserId| #[trigger]
                        r@.contains(u) <==> exists|j: int|
                            0 <= j < i + 1 && accepted_link(
                                #[trigger] state.friendships@[j],
                                me,
                                u,
                            ) by {
                        if exists|j: int|
                            0 <= j < i + 1 && accepted_link(
                                #[trigger] state.friendships@[j],
                                me,
                                u,
                            ) {
                            let j = choose|j: int|
                                0 <= j < i + 1 && accepted_link(
                                    #[trigger] state.friendships@[j],
                                    me,
                                    u,
                                );
                            if j == i as int {
                                assert(u == other);
                            }
                        }
                    }
                }
            }
        } else {
            proof {
                assert forall|u: UserId| #[trigger]
                    r@.contains(u) <==> exists|j: int|
                        0 <= j < i + 1 && accepted_link(
                            #[trigger] state.friendships@[j],
                            me,
                            u,
                        ) by {
                    if exists|j: int|
                        0 <= j < i + 1 && accepted_link(#[trigger] state.friendships@[j], me, u) {
                        let j = choose|j: int|
                            0 <= j < i + 1 && accepted_link(
                                #[trigger] state.friendships@[j],
                                me,
                                u,
                            );
                        assert(j < i);
                    }
                }
            }
        }
        i += 1;
    }
    r
}

/// The users with a pending friend request addressed to `me`: each
/// listed once, a user exactly when such a request of theirs is stored.
/// (The order is not part of the contract.)
pub fn get_incoming(state: &SchedulingState, me: UserId) -> (r: Vec<UserId>)
    ensures
        forall|k1: int, k2: int| 0 <= k1 < k2 < r@.len() ==> r@[k1] != r@[k2],
        forall|u: UserId| #[trigger] r@.contains(u) <==> has_pending_request(*state, u, me),
{
    let n = state.friendships.len();
    let mut r: Vec<UserId> = Vec::new();
    let mut i: usize = 0;
    while i < n
        invariant
            n == state.friendships@.len(),
            i <= n,
            forall|k1: int, k2: int| 0 <= k1 < k2 < r@.len() ==> r@[k1] != r@[k2],
            forall|u: UserId|
                #[trigger] r@.contains(u) <==> exists|j: int|
                    0 <= j < i && request_matches(#[trigger] state.friendships@[j], u, me),
        decreases n - i,
    {
        let row = state.friendships[i];
        if row.friend_id == me && matches!(row.status, FriendshipStatus::Pending) {
            if !contains_user(&r, row.user_id) {
                let ghost r0 = r@;
                r.push(row.user_id);
                proof {
                    assert forall|u: UserId| #[trigger]
                        r@.contains(u) <==> exists|j: int|
                            0 <= j < i + 1 && request_matches(
                                #[trigger] state.friendships@[j],
                                u,
                                me,
                            ) by {
                        assert(r@ == r0.push(row.user_id));
                        if r@.contains(u) {
                            let w = choose|w: int| 0 <= w < r@.len() && r@[w] == u;
                            if w < r0.len() {
                                assert(r0.contains(u));
                            } else {
                                assert(request_matches(state.friendships@[i as int], u, me));
                            }
                        }
                        if exists|j: int|
                            0 <= j < i + 1 && request_matches(
                                #[trigger] state.friendships@[j],
                                u,
                                me,
                            ) {
                            let j = choose|j: int|
                                0 <= j < i + 1 && request_matches(
                                    #[trigger] state.friendships@[j],
                                    u,
                                    me,
                                );
                            if j < i {
                                assert(r0.contains(u));
                                let w = choose|w: int| 0 <= w < r0.len() && r0[w] == u;
                                assert(r@[w] == u);
                            } else {
                                assert(r@[r0.len() as int] == u);
                            }
                        }
                    }
                }
            } else {
                proof {
                    assert forall|u: UserId| #[trigger]
                        r@.contains(u) <==> exists|j: int|
                            0 <= j < i + 1 && request_matches(
                                #[trigger] state.friendships@[j],
                                u,
                                me,
                            ) by {
                        if exists|j: int|
                            0 <= j < i + 1 && request_matches(
                                #[trigger] state.friendships@[j],
                                u,
                                me,
                            ) {
                            let j = choose|j: int|
                                0 <= j < i + 1 && request_matches(
                                    #[trigger] state.friendships@[j],
                                    u,
                                    me,
                                );
                            if j == i as int {
                                assert(u == row.user_id);
                            }
                        }
                    }
                }
            }
        } else {
            proof {
                assert forall|u: UserId| #[trigger]
                    r@.contains(u) <==> exists|j: int|
                        0 <= j < i + 1 && request_matches(
                            #[trigger] state.friendships@[j],
                            u,
                            me,
                        ) by {
                    if exists|j: int|
                        0 <= j < i + 1 && request_matches(#[trigger] state.friendships@[j], u, me) {
                        let j = choose|j: int|
                            0 <= j < i + 1 && request_matches(
                                #[trigger] state.friendships@[j],
                                u,
                                me,
                            );
                        assert(j < i);
                    }
                }
            }
        }
        i += 1;
    }
    r
}

/// The users `me` has sent a pending friend request to: each listed
/// once, a user exactly when such a request is stored.  (The order is
/// not part of the contract.)
pub fn get_outgoing(state: &SchedulingState, me: UserId) -> (r: Vec<UserId>)
    ensures
        forall|k1: int, k2: int| 0 <= k1 < k2 < r@.len() ==> r@[k1] != r@[k2],
        forall|u: UserId| #[trigger] r@.contains(u) <==> has_pending_request(*state, me, u),
{
    let n = state.friendships.len();
    let mut r: Vec<UserId> = Vec::new();
    let mut i: usize = 0;
    while i < n
        invariant
            n == state.friendships@.len(),
            i <= n,
            forall|k1: int, k2: int| 0 <= k1 < k2 < r@.len() ==> r@[k1] != r@[k2],
            forall|u: UserId|
                #[trigger] r@.contains(u) <==> exists|j: int|
                    0 <= j < i && request_matches(#[trigger] state.friendships@[j], me, u),
        decreases n - i,
    {
        let row = state.friendships[i];
        if row.user_id == me && matches!(row.status, FriendshipStatus::Pending) {
            if !contains_user(&r, row.friend_id) {
                let ghost r0 = r@;
                r.push(row.friend_id);
                proof {
                    assert forall|u: UserId| #[trigger]
                        r@.contains(u) <==> exists|j: int|
                            0 <= j < i + 1 && request_matches(
                                #[trigger] state.friendships@[j],
                                me,
                                u,
                            ) by {
                        assert(r@ == r0.push(row.friend_id));
                        if r@.contains(u) {
                            let w = choose|w: int| 0 <= w < r@.len() && r@[w] == u;
                            if w < r0.len() {
                                assert(r0.contains(u));
                            } else {
                                assert(request_matches(state.friendships@[i as int], me, u));
                            }
                        }
                        if exists|j: int|
                            0 <= j < i + 1 && request_matches(
                                #[trigger] state.friendships@[j],
                                me,
                                u,
                            ) {
                            let j = choose|j: int|
                                0 <= j < i + 1 && request_matches(
                                    #[trigger] state.friendships@[j],
                                    me,
                                    u,
                                );
                            if j < i {
                                assert(r0.contains(u));
                                let w = choose|w: int| 0 <= w < r0.len() && r0[w] == u;
                                assert(r@[w] == u);
                            } else {
                                assert(r@[r0.len() as int] == u);
                            }
                        }
                    }
                }
            } else {
                proof {
                    assert forall|u: UserId| #[trigger]
                        r@.contains(u) <==> exists|j: int|
                            0 <= j < i + 1 && request_matches(
                                #[trigger] state.friendships@[j],
                                me,
                                u,
                            ) by {
                        if exists|j: int|
                            0 <= j < i + 1 && request_matches(
                                #[trigger] state.friendships@[j],
                                me,
                                u,
                            ) {
                            let j = choose|j: int|
                                0 <= j < i + 1 && request_matches(
                                    #[trigger] state.friendships@[j],
                                    me,
                                    u,
                                );
                            if j == i as int {
                                assert(u == row.friend_id);
                            }
                        }
                    }
                }
            }
        } else {
            proof {
                assert forall|u: UserId| #[trigger]
                    r@.contains(u) <==> exists|j: int|
                        0 <= j < i + 1 && request_matches(
                            #[trigger] state.friendships@[j],
                            me,
                            u,
                        ) by {
                    if exists|j: int|
                        0 <= j < i + 1 && request_matches(#[trigger] state.friendships@[j], me, u) {
                        let j = choose|j: int|
                            0 <= j < i + 1 && request_matches(
                                #[trigger] state.friendships@[j],
                                me,
                                u,
                            );
                        assert(j < i);
                    }
                }
            }
        }
        i += 1;
    }
    r
}

} // verus!
