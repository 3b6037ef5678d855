//! The scheduling state: the invitation store, the busy-day ledger, the
//! friendship rows it consults, and the cross-entity invariants that tie
//! them together.

use vstd::prelude::*;

use crate::date::Date;
use crate::model::{Busyday, Friendship, FriendshipStatus, Invitation, InvitationDate,
    InvitationId, InvitationStatus, UserId};

verus! {

/// All state of the scheduler.  The engine is stateless between calls;
/// everything lives in these four tables.  `next_id` feeds fresh row
/// identifiers, standing in for the key generation a database would do.
pub struct SchedulingState {
    pub friendships: Vec<Friendship>,
    pub invitations: Vec<Invitation>,
    pub invitation_dates: Vec<InvitationDate>,
    pub busydays: Vec<Busyday>,
    pub next_id: u128,
}

impl SchedulingState {
    /// Some invitation row carries this id.
    pub open spec fn has_invitation(self, id: InvitationId) -> bool {
        exists|i: int| 0 <= i < self.invitations@.len() && self.invitations@[i].id == id
    }

    /// The index of the invitation row with this id (ids are unique under
    /// `wf`, so the choice is determined).
    pub open spec fn inv_index(self, id: InvitationId) -> int {
        choose|i: int| 0 <= i < self.invitations@.len() && self.invitations@[i].id == id
    }

    /// The invitation row with this id.
    pub open spec fn invitation_at(self, id: InvitationId) -> Invitation {
        self.invitations@[self.inv_index(id)]
    }

    /// The invitation exists, awaits resolution, and is addressed to `me`.
    pub open spec fn pending_for_recipient(self, id: InvitationId, me: UserId) -> bool {
        &&& self.has_invitation(id)
        &&& self.invitation_at(id).to_user_id == me
        &&& self.invitation_at(id).status == InvitationStatus::Pending
    }

    /// The invitation exists, awaits resolution, and was sent by `me`.
    pub open spec fn pending_from_sender(self, id: InvitationId, me: UserId) -> bool {
        &&& self.has_invitation(id)
        &&& self.invitation_at(id).from_user_id == me
        &&& self.invitation_at(id).status == InvitationStatus::Pending
    }

    /// Date `d` belongs to the proposed set of invitation `id`.
    pub open spec fn proposes(self, id: InvitationId, d: Date) -> bool {
        exists|j: int|
            0 <= j < self.invitation_dates@.len() && self.invitation_dates@[j].invitation_id == id
                && self.invitation_dates@[j].date == d
    }

    /// User `u` already holds a claim on day `d`.
    pub open spec fn busy_on(self, u: UserId, d: Date) -> bool {
        exists|j: int|
            0 <= j < self.busydays@.len() && self.busydays@[j].user_id == u
                && self.busydays@[j].date == d
    }

    /// The friendship test: an accepted relationship exists between `a`
    /// and `b`, in either orientation.
    pub open spec fn are_friends(self, a: UserId, b: UserId) -> bool {
        exists|j: int|
            {
                let row = #[trigger] self.friendships@[j];
                &&& 0 <= j < self.friendships@.len()
                &&& row.status == FriendshipStatus::Accepted
                &&& ((row.user_id == a && row.friend_id == b) || (row.user_id == b && row.friend_id
                    == a))
            }
    }

    /// Every stored row id was drawn from the id counter, so the counter's
    /// next value is fresh for all four tables.
    pub open spec fn ids_fresh(self) -> bool {
        &&& forall|i: int|
            0 <= i < self.friendships@.len() ==> (#[trigger] self.friendships@[i].id)
                < self.next_id
        &&& forall|i: int|
            0 <= i < self.invitations@.len() ==> (#[trigger] self.invitations@[i].id)
                < self.next_id
        &&& forall|i: int|
            0 <= i < self.invitation_dates@.len() ==> (#[trigger] self.invitation_dates@[i].id)
                < self.next_id
        &&& forall|i: int|
            0 <= i < self.busydays@.len() ==> (#[trigger] self.busydays@[i].id) < self.next_id
    }

    /// No two invitation rows share an id.
    pub open spec fn invitation_ids_unique(self) -> bool {
        forall|i: int, j: int|
            0 <= i < j < self.invitations@.len() ==> (#[trigger] self.invitations@[i].id) != (
            #[trigger] self.invitations@[j].id)
    }

    /// Per-invitation invariants: no self-invitation, a selected date
    /// exactly when accepted, and an accepted invitation's selected date
    /// is valid, comes from its own proposed set, and is claimed by both
    /// participants.
    pub open spec fn invitations_wf(self) -> bool {
        forall|i: int|
            #![trigger self.invitations@[i].id]
            0 <= i < self.invitations@.len() ==> {
                let inv = self.invitations@[i];
                &&& inv.from_user_id != inv.to_user_id
                &&& (inv.status == InvitationStatus::Accepted <==> inv.selected_date is Some)
                &&& (inv.status == InvitationStatus::Accepted ==> {
                    let sel = inv.selected_date->0;
                    &&& sel.valid()
                    &&& self.proposes(inv.id, sel)
                    &&& self.busy_on(inv.from_user_id, sel)
                    &&& self.busy_on(inv.to_user_id, sel)
                })
            }
    }

    /// Proposed-date rows name real days, belong to an existing
    /// invitation, and are unique per (invitation, date).
    pub open spec fn invitation_dates_wf(self) -> bool {
        &&& forall|i: int|
            #![trigger self.invitation_dates@[i].id]
            0 <= i < self.invitation_dates@.len() ==> {
                let row = self.invitation_dates@[i];
                &&& row.date.valid()
                &&& self.has_invitation(row.invitation_id)
            }
        &&& forall|i: int, j: int|
            0 <= i < j < self.invitation_dates@.len() ==> !((
            #[trigger] self.invitation_dates@[i]).invitation_id == (
            #[trigger] self.invitation_dates@[j]).invitation_id && self.invitation_dates@[i].date
                == self.invitation_dates@[j].date)
    }

    /// An accepted invitation accounting for the claim `b`.
    pub open spec fn claim_originates(self, b: Busyday) -> bool {
        exists|k: int|
            0 <= k < self.invitations@.len() && {
                let inv = #[trigger] self.invitations@[k];
                &&& inv.status == InvitationStatus::Accepted
                &&& inv.selected_date == Some(b.date)
                &&& (b.user_id == inv.from_user_id || b.user_id == inv.to_user_id)
            }
    }

    /// Busy-day rows name real days, are exclusive per (user, date), and
    /// each one originates from an accepted invitation of that user on
    /// that day.
    pub open spec fn busydays_wf(self) -> bool {
        &&& forall|i: int|
            0 <= i < self.busydays@.len() ==> (#[trigger] self.busydays@[i]).date.valid()
        &&& forall|i: int, j: int|
            0 <= i < j < self.busydays@.len() ==> !((#[trigger] self.busydays@[i]).user_id == (
            #[trigger] self.busydays@[j]).user_id && self.busydays@[i].date
                == self.busydays@[j].date)
        &&& forall|i: int|
            #![trigger self.busydays@[i].id]
            0 <= i < self.busydays@.len() ==> self.claim_originates(self.busydays@[i])
    }

    /// The whole well-formedness predicate; every operation of the
    /// library preserves it.
    pub open spec fn wf(self) -> bool {
        &&& self.ids_fresh()
        &&& self.invitation_ids_unique()
        &&& self.invitations_wf()
        &&& self.invitation_dates_wf()
        &&& self.busydays_wf()
    }

    /// An empty state: no rows at all.
    pub fn new() -> (s: SchedulingState)
        ensures
            s.wf(),
            s.friendships@ == Seq::<Friendship>::empty(),
            s.invitations@ == Seq::<Invitation>::empty(),
            s.invitation_dates@ == Seq::<InvitationDate>::empty(),
            s.busydays@ == Seq::<Busyday>::empty(),
            s.next_id == 0,
    {
        SchedulingState {
            friendships: Vec::new(),
            invitations: Vec::new(),
            invitation_dates: Vec::new(),
            busydays: Vec::new(),
            next_id: 0,
        }
    }
}

/// With unique invitation ids, looking an id up by `inv_index` lands on
/// the row it came from.
pub proof fn lemma_inv_index_is(s: SchedulingState, i: int)
    requires
        s.invitation_ids_unique(),
        0 <= i < s.invitations@.len(),
    ensures
        s.has_invitation(s.invitations@[i].id),
        s.inv_index(s.invitations@[i].id) == i,
        s.invitation_at(s.invitations@[i].id) == s.invitations@[i],
{
    let id = s.invitations@[i].id;
    assert(s.has_invitation(id));
    let j = s.inv_index(id);
    assert(0 <= j < s.invitations@.len() && s.invitations@[j].id == id);
    if i != j {
        let a = if i < j {
            i
        } else {
            j
        };
        let b = if i < j {
            j
        } else {
            i
        };
        assert(s.invitations@[a].id != s.invitations@[b].id);
    }
}

/// Law: in a well-formed state, every accepted invitation's selected
/// date is a member of its own proposed-date set.
pub proof fn lemma_accepted_selected_is_proposed(s: SchedulingState, i: int)
    requires
        s.wf(),
        0 <= i < s.invitations@.len(),
        s.invitations@[i].status == InvitationStatus::Accepted,
    ensures
        s.invitations@[i].selected_date is Some,
        s.proposes(s.invitations@[i].id, s.invitations@[i].selected_date->0),
{
    let id = s.invitations@[i].id;
}

/// Law: in a well-formed state, no user holds two busy-day rows for the
/// same date.
pub proof fn lemma_busyday_exclusive(s: SchedulingState, i: int, j: int)
    requires
        s.wf(),
        0 <= i < s.busydays@.len(),
        0 <= j < s.busydays@.len(),
        i != j,
        s.busydays@[i].user_id == s.busydays@[j].user_id,
    ensures
        s.busydays@[i].date != s.busydays@[j].date,
{
    let a = if i < j {
        i
    } else {
        j
    };
    let b = if i < j {
        j
    } else {
        i
    };
    assert(!(s.busydays@[a].user_id == s.busydays@[b].user_id && s.busydays@[a].date
        == s.busydays@[b].date));
}

/// Law: in a well-formed state, an accepted invitation's selected date
/// is claimed by both of its participants.
pub proof fn lemma_accepted_has_both_claims(s: SchedulingState, i: int)
    requires
        s.wf(),
        0 <= i < s.invitations@.len(),
        s.invitations@[i].status == InvitationStatus::Accepted,
    ensures
        s.busy_on(s.invitations@[i].from_user_id, s.invitations@[i].selected_date->0),
        s.busy_on(s.invitations@[i].to_user_id, s.invitations@[i].selected_date->0),
{
    let id = s.invitations@[i].id;
}

} // verus!
