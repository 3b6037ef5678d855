//! Request bodies and query parameters of the public interface, as plain
//! data.  The transport layer deserializes into these shapes; dates
//! travel as `YYYY-MM-DD` strings and are validated by the library.

use vstd::prelude::*;

use crate::model::UserId;

verus! {

/// Body of the create-invitation call: the recipient and the candidate
/// dates offered to them.
pub struct CreateInvitationRequest {
    pub to_user_id: UserId,
    pub dates: Vec<String>,
}

/// Body of the accept-invitation call: the one proposed date chosen.
pub struct AcceptInvitationRequest {
    pub selected_date: String,
}

/// Inclusive date range of a calendar read.
pub struct CalendarQuery {
    pub from: String,
    pub to: String,
}

/// Filter over invitation lifecycles offered by the listing endpoints.
#[derive(Clone, Copy, Debug, PartialEq, Eq, Structural)]
pub enum InvitationStatusFilter {
    Pending,
    Accepted,
    Declined,
}

/// Optional status filter of an invitation listing.
pub struct InvitationStatusQuery {
    pub status: Option<InvitationStatusFilter>,
}

/// Body of a registration call.
pub struct AuthRequestBody {
    pub username: String,
    pub avatar_url: Option<String>,
    pub bio: Option<String>,
    pub password: String,
}

/// Body of a login call.
pub struct LoginRequestBody {
    pub username: String,
    pub password: String,
}

/// Body of a profile update; absent fields are left unchanged.
pub struct UpdateUserRequestBody {
    pub username: Option<String>,
    pub avatar_url: Option<String>,
    pub bio: Option<String>,
}

/// Username prefix of a user search.
pub struct UserNameSearchQuery {
    pub username: Option<String>,
}

} // verus!
