use daybook::auth::{parse_auth_user_id, token_payload, AuthUser, TOKEN_LIFETIME_SECONDS};
use daybook::clock::{now_timestamp, today};
use daybook::error::ApiError;

#[test]
fn caller_id_resolves_through_uuid_parsing() {
    let text = "fd94d39f-c469-4f52-8d6d-34f6b7c0546c";
    let auth = AuthUser { user_id: text.to_string() };
    let expected = uuid::Uuid::parse_str(text).unwrap().as_u128();
    assert_eq!(parse_auth_user_id(&auth), Ok(expected));
    assert_ne!(expected, 0);
}

#[test]
fn caller_id_accepts_the_simple_uuid_form_too() {
    let hyphenated = AuthUser { user_id: "fd94d39f-c469-4f52-8d6d-34f6b7c0546c".to_string() };
    let simple = AuthUser { user_id: "fd94d39fc4694f528d6d34f6b7c0546c".to_string() };
    assert_eq!(parse_auth_user_id(&hyphenated), parse_auth_user_id(&simple));
}

#[test]
fn malformed_caller_id_is_unauthorized() {
    let auth = AuthUser { user_id: "not-a-uuid".to_string() };
    assert_eq!(parse_auth_user_id(&auth), Err(ApiError::Unauthorized));
    let auth = AuthUser { user_id: String::new() };
    assert_eq!(parse_auth_user_id(&auth), Err(ApiError::Unauthorized));
}

#[test]
fn token_payload_expires_one_lifetime_later() {
    let p = token_payload("user-7".to_string(), 1_700_000_000);
    assert_eq!(p.sub, "user-7");
    assert_eq!(p.exp as u64, 1_700_000_000 + TOKEN_LIFETIME_SECONDS);
}

#[test]
fn the_clock_reports_a_real_calendar_day() {
    let day = today().unwrap();
    assert!(day.year >= 2024 && day.year <= 9999);
    assert!(1 <= day.month && day.month <= 12);
    assert!(1 <= day.day && day.day <= 31);
}

#[test]
fn the_clock_reports_a_recent_timestamp() {
    let ts = now_timestamp();
    assert!(ts > 1_700_000_000);
}

#[test]
fn error_codes_follow_the_http_mapping() {
    assert_eq!(ApiError::BadRequest.status_code(), 400);
    assert_eq!(ApiError::Unauthorized.status_code(), 401);
    assert_eq!(ApiError::Forbidden.status_code(), 403);
    assert_eq!(ApiError::NotFound.status_code(), 404);
    assert_eq!(ApiError::Conflict.status_code(), 409);
    assert_eq!(ApiError::Internal.status_code(), 500);
}
