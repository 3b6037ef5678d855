//! Caller identity: the token claims, the extracted caller, and the
//! mapping from a caller's textual user id to the identifier the stores
//! key on.

use vstd::prelude::*;

use crate::error::ApiError;
use crate::model::UserId;

verus! {

/// Claims carried by an access token: the subject (a user id) and the
/// expiry, as seconds since the Unix epoch.
pub struct Payload {
    pub sub: String,
    pub exp: usize,
}

/// The caller extracted from a request by the transport layer, still as
/// the textual user id found in the token's subject.
pub struct AuthUser {
    pub user_id: String,
}

/// The UUID value named by a string, if it names one: a function of the
/// characters alone.
pub uninterp spec fn uuid_parse(s: Seq<char>) -> Option<u128>;

/// Relies on uuid::Uuid::parse_str (and Uuid::as_u128): whether a string
/// names a UUID, and which 128-bit value it names, depend on the
/// characters alone.
#[verifier::external_body]
fn parse_uuid_str(s: &str) -> (r: Option<u128>)
    ensures
        r == uuid_parse(s@),
{
    match uuid::Uuid::parse_str(s) {
        Ok(u) => Some(u.as_u128()),
        Err(_) => None,
    }
}

/// Resolves a caller to the identifier the stores key on; a caller whose
/// textual id names no UUID carries no valid identity.
pub fn parse_auth_user_id(auth: &AuthUser) -> (r: Result<UserId, ApiError>)
    ensures
        (r is Ok <==> uuid_parse(auth.user_id@) is Some),
        r is Ok ==> r == Ok::<UserId, ApiError>(uuid_parse(auth.user_id@)->0),
        r is Err ==> r == Err::<UserId, ApiError>(ApiError::Unauthorized),
{
    match parse_uuid_str(auth.user_id.as_str()) {
        Some(u) => Ok(u),
        None => Err(ApiError::Unauthorized),
    }
}

/// Number of seconds an access token stays valid.
pub const TOKEN_LIFETIME_SECONDS: u64 = 86400;

/// The claims of a token issued to `user_id` at `now_ts`: the token
/// expires one lifetime later.
pub fn token_payload(user_id: String, now_ts: i64) -> (p: Payload)
    requires
        0 <= now_ts,
        now_ts + TOKEN_LIFETIME_SECONDS <= usize::MAX,
    ensures
        p.sub == user_id,
        p.exp == now_ts + TOKEN_LIFETIME_SECONDS,
{
    Payload { sub: user_id, exp: (now_ts as u64 + TOKEN_LIFETIME_SECONDS) as usize }
}

} // verus!
