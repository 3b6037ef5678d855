use daybook::calendar::{get_my_busydays, get_user_calendar};
use daybook::date::{parse_date, Date};
use daybook::engine::{accept_invitation, create_invitation};
use daybook::error::ApiError;
use daybook::friends::{accept_friend_request, friend_request};
use daybook::requests::{AcceptInvitationRequest, CalendarQuery, CreateInvitationRequest};
use daybook::responses::InviteDirection;
use daybook::store::SchedulingState;

const ALICE: u128 = 1;
const BOB: u128 = 2;
const CAROL: u128 = 3;

fn today() -> Date {
    parse_date("2026-04-01").unwrap()
}

fn befriend(state: &mut SchedulingState, a: u128, b: u128) {
    friend_request(state, a, b).unwrap();
    accept_friend_request(state, b, a).unwrap();
}

fn create_req(to: u128, dates: &[&str]) -> CreateInvitationRequest {
    CreateInvitationRequest {
        to_user_id: to,
        dates: dates.iter().map(|s| s.to_string()).collect(),
    }
}

fn query(from: &str, to: &str) -> CalendarQuery {
    CalendarQuery { from: from.to_string(), to: to.to_string() }
}

/// Two accepted meetings for Bob (one past by the reading day, one
/// upcoming) and one still-pending invitation each way.
fn busy_world() -> SchedulingState {
    let mut state = SchedulingState::new();
    befriend(&mut state, ALICE, BOB);
    befriend(&mut state, CAROL, BOB);
    let early = parse_date("2026-01-01").unwrap();
    let first = create_invitation(
        &mut state,
        ALICE,
        &create_req(BOB, &["2026-03-10", "2026-03-20"]),
        early,
        0,
    )
    .unwrap();
    accept_invitation(
        &mut state,
        BOB,
        first.id,
        &AcceptInvitationRequest { selected_date: "2026-03-10".to_string() },
    )
    .unwrap();
    let second =
        create_invitation(&mut state, CAROL, &create_req(BOB, &["2026-05-05"]), early, 0).unwrap();
    accept_invitation(
        &mut state,
        BOB,
        second.id,
        &AcceptInvitationRequest { selected_date: "2026-05-05".to_string() },
    )
    .unwrap();
    create_invitation(&mut state, ALICE, &create_req(BOB, &["2026-04-15"]), early, 0).unwrap();
    create_invitation(&mut state, BOB, &create_req(CAROL, &["2026-04-20"]), early, 0).unwrap();
    state
}

#[test]
fn calendar_access_by_a_stranger_is_forbidden() {
    let state = busy_world();
    let r = get_user_calendar(&state, CAROL, ALICE, &query("2026-01-01", "2026-12-31"), today());
    assert!(matches!(r, Err(ApiError::Forbidden)));
}

#[test]
fn calendar_is_readable_by_self_and_friends() {
    let state = busy_world();
    assert!(get_user_calendar(&state, BOB, BOB, &query("2026-01-01", "2026-12-31"), today())
        .is_ok());
    assert!(get_user_calendar(&state, ALICE, BOB, &query("2026-01-01", "2026-12-31"), today())
        .is_ok());
}

#[test]
fn calendar_rejects_bad_ranges() {
    let state = busy_world();
    let r = get_user_calendar(&state, BOB, BOB, &query("2026-12-31", "2026-01-01"), today());
    assert!(matches!(r, Err(ApiError::BadRequest)));
    let r = get_user_calendar(&state, BOB, BOB, &query("soon", "2026-12-31"), today());
    assert!(matches!(r, Err(ApiError::BadRequest)));
    let r = get_user_calendar(&state, BOB, BOB, &query("2026-01-01", "never"), today());
    assert!(matches!(r, Err(ApiError::BadRequest)));
}

#[test]
fn calendar_reports_busy_days_in_order_with_past_events() {
    let state = busy_world();
    let resp =
        get_user_calendar(&state, BOB, BOB, &query("2026-01-01", "2026-12-31"), today()).unwrap();
    assert_eq!(resp.from, parse_date("2026-01-01").unwrap());
    assert_eq!(resp.to, parse_date("2026-12-31").unwrap());
    assert_eq!(resp.busy_days.len(), 2);
    assert_eq!(resp.busy_days[0].date, parse_date("2026-03-10").unwrap());
    assert_eq!(resp.busy_days[1].date, parse_date("2026-05-05").unwrap());
    assert!(resp.busy_days.iter().all(|b| b.user_id == BOB));
    assert_eq!(resp.past_events, vec![parse_date("2026-03-10").unwrap()]);
}

#[test]
fn calendar_restricts_busy_days_to_the_range() {
    let state = busy_world();
    let resp =
        get_user_calendar(&state, BOB, BOB, &query("2026-04-01", "2026-12-31"), today()).unwrap();
    assert_eq!(resp.busy_days.len(), 1);
    assert_eq!(resp.busy_days[0].date, parse_date("2026-05-05").unwrap());
    assert_eq!(resp.past_events.len(), 0);
}

#[test]
fn calendar_tags_pending_invites_by_direction() {
    let state = busy_world();
    let resp =
        get_user_calendar(&state, BOB, BOB, &query("2026-01-01", "2026-12-31"), today()).unwrap();
    assert_eq!(resp.pending_invites.len(), 2);
    let incoming: Vec<_> = resp
        .pending_invites
        .iter()
        .filter(|p| p.direction == InviteDirection::Incoming)
        .collect();
    let outgoing: Vec<_> = resp
        .pending_invites
        .iter()
        .filter(|p| p.direction == InviteDirection::Outgoing)
        .collect();
    assert_eq!(incoming.len(), 1);
    assert_eq!(incoming[0].date, parse_date("2026-04-15").unwrap());
    assert_eq!(outgoing.len(), 1);
    assert_eq!(outgoing[0].date, parse_date("2026-04-20").unwrap());
}

#[test]
fn calendar_restricts_pending_invites_to_the_range() {
    let state = busy_world();
    let resp =
        get_user_calendar(&state, BOB, BOB, &query("2026-04-16", "2026-12-31"), today()).unwrap();
    assert_eq!(resp.pending_invites.len(), 1);
    assert_eq!(resp.pending_invites[0].date, parse_date("2026-04-20").unwrap());
}

#[test]
fn my_busydays_needs_no_friend_check_but_a_sane_range() {
    let state = busy_world();
    let rows = get_my_busydays(&state, BOB, &query("2026-01-01", "2026-12-31")).unwrap();
    assert_eq!(rows.len(), 2);
    assert_eq!(rows[0].date, parse_date("2026-03-10").unwrap());
    assert_eq!(rows[1].date, parse_date("2026-05-05").unwrap());
    let rows = get_my_busydays(&state, ALICE, &query("2026-01-01", "2026-12-31")).unwrap();
    assert_eq!(rows.len(), 1);
    let r = get_my_busydays(&state, BOB, &query("2026-12-31", "2026-01-01"));
    assert!(matches!(r, Err(ApiError::BadRequest)));
    let r = get_my_busydays(&state, BOB, &query("x", "2026-01-01"));
    assert!(matches!(r, Err(ApiError::BadRequest)));
}
