//! The persisted entities: invitations, their proposed dates, busy-day
//! claims, and friendships.

use vstd::prelude::*;

use crate::date::Date;

verus! {

/// Users and rows are named by 128-bit identifiers.
pub type UserId = u128;

/// Identifier of an invitation row.
pub type InvitationId = u128;

/// Lifecycle of an invitation.  Illegal states are unrepresentable: a
/// selected date may be present exactly when the status is `Accepted`.
#[derive(Clone, Copy, Debug, PartialEq, Eq, Structural)]
pub enum InvitationStatus {
    Pending,
    Accepted,
    Declined,
}

/// Lifecycle of a friendship request.
#[derive(Clone, Copy, Debug, PartialEq, Eq, Structural)]
pub enum FriendshipStatus {
    Pending,
    Accepted,
}

/// One appointment invitation from `from_user_id` to `to_user_id`.
#[derive(Clone, Copy, Debug, PartialEq, Eq, Structural)]
pub struct Invitation {
    pub id: InvitationId,
    pub from_user_id: UserId,
    pub to_user_id: UserId,
    pub status: InvitationStatus,
    pub selected_date: Option<Date>,
    /// Creation time, as seconds since the Unix epoch.
    pub created_at: i64,
}

/// One candidate date proposed by an invitation's sender.
#[derive(Clone, Copy, Debug, PartialEq, Eq, Structural)]
pub struct InvitationDate {
    pub id: u128,
    pub invitation_id: InvitationId,
    pub date: Date,
}

/// An exclusive claim: `user_id` is committed on `date`.
#[derive(Clone, Copy, Debug, PartialEq, Eq, Structural)]
pub struct Busyday {
    pub id: u128,
    pub user_id: UserId,
    pub date: Date,
    /// Opaque reference to an event outside this subsystem, if any.
    pub event_id: Option<u128>,
}

/// A trust relationship requested by `user_id` towards `friend_id`.
#[derive(Clone, Copy, Debug, PartialEq, Eq, Structural)]
pub struct Friendship {
    pub id: u128,
    pub user_id: UserId,
    pub friend_id: UserId,
    pub status: FriendshipStatus,
}

} // verus!
