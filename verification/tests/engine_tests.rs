use daybook::date::{parse_date, Date};
use daybook::engine::{accept_invitation, cancel_invitation, create_invitation,
    decline_invitation, get_incoming_invitations, get_invitation_by_id,
    get_outgoing_invitations};
use daybook::error::ApiError;
use daybook::friends::{accept_friend_request, friend_request};
use daybook::model::InvitationStatus;
use daybook::requests::{AcceptInvitationRequest, CreateInvitationRequest};
use daybook::store::SchedulingState;

const ALICE: u128 = 1;
const BOB: u128 = 2;
const CAROL: u128 = 3;

fn today() -> Date {
    parse_date("2026-01-01").unwrap()
}

fn befriend(state: &mut SchedulingState, a: u128, b: u128) {
    friend_request(state, a, b).unwrap();
    accept_friend_request(state, b, a).unwrap();
}

fn create_req(to: u128, dates: &[&str]) -> CreateInvitationRequest {
    CreateInvitationRequest {
        to_user_id: to,
        dates: dates.iter().map(|s| s.to_string()).collect(),
    }
}

fn accept_req(date: &str) -> AcceptInvitationRequest {
    AcceptInvitationRequest { selected_date: date.to_string() }
}

fn fresh_pair() -> SchedulingState {
    let mut state = SchedulingState::new();
    befriend(&mut state, ALICE, BOB);
    state
}

#[test]
fn create_rejects_empty_date_list_and_writes_nothing() {
    let mut state = fresh_pair();
    let r = create_invitation(&mut state, ALICE, &create_req(BOB, &[]), today(), 0);
    assert!(matches!(r, Err(ApiError::BadRequest)));
    assert_eq!(state.invitations.len(), 0);
    assert_eq!(state.invitation_dates.len(), 0);
}

#[test]
fn create_rejects_duplicate_dates_and_writes_nothing() {
    let mut state = fresh_pair();
    let req = create_req(BOB, &["2026-03-01", "2026-03-02", "2026-03-01"]);
    let r = create_invitation(&mut state, ALICE, &req, today(), 0);
    assert!(matches!(r, Err(ApiError::BadRequest)));
    assert_eq!(state.invitations.len(), 0);
    assert_eq!(state.invitation_dates.len(), 0);
}

#[test]
fn create_rejects_past_dates_and_writes_nothing() {
    let mut state = fresh_pair();
    let req = create_req(BOB, &["2025-12-31"]);
    let r = create_invitation(&mut state, ALICE, &req, today(), 0);
    assert!(matches!(r, Err(ApiError::BadRequest)));
    assert_eq!(state.invitations.len(), 0);
}

#[test]
fn create_rejects_malformed_dates() {
    let mut state = fresh_pair();
    let req = create_req(BOB, &["03/01/2026"]);
    let r = create_invitation(&mut state, ALICE, &req, today(), 0);
    assert!(matches!(r, Err(ApiError::BadRequest)));
    assert_eq!(state.invitations.len(), 0);
}

#[test]
fn create_rejects_self_invitation() {
    let mut state = fresh_pair();
    let r = create_invitation(&mut state, ALICE, &create_req(ALICE, &["2026-03-01"]), today(), 0);
    assert!(matches!(r, Err(ApiError::BadRequest)));
}

#[test]
fn create_between_non_friends_is_forbidden_and_writes_nothing() {
    let mut state = SchedulingState::new();
    let r = create_invitation(&mut state, ALICE, &create_req(BOB, &["2026-03-01"]), today(), 0);
    assert!(matches!(r, Err(ApiError::Forbidden)));
    assert_eq!(state.invitations.len(), 0);
    assert_eq!(state.invitation_dates.len(), 0);
}

#[test]
fn create_accepts_today_itself() {
    let mut state = fresh_pair();
    let r = create_invitation(&mut state, ALICE, &create_req(BOB, &["2026-01-01"]), today(), 0);
    assert!(r.is_ok());
}

#[test]
fn create_writes_invitation_and_all_dates() {
    let mut state = fresh_pair();
    let req = create_req(BOB, &["2026-03-02", "2026-03-01"]);
    let created = create_invitation(&mut state, ALICE, &req, today(), 42).unwrap();
    assert_eq!(state.invitations.len(), 1);
    let inv = &state.invitations[0];
    assert_eq!(inv.id, created.id);
    assert_eq!(inv.from_user_id, ALICE);
    assert_eq!(inv.to_user_id, BOB);
    assert_eq!(inv.status, InvitationStatus::Pending);
    assert_eq!(inv.selected_date, None);
    assert_eq!(inv.created_at, 42);
    assert_eq!(state.invitation_dates.len(), 2);
    for row in &state.invitation_dates {
        assert_eq!(row.invitation_id, created.id);
    }
    assert_eq!(state.invitation_dates[0].date, parse_date("2026-03-02").unwrap());
    assert_eq!(state.invitation_dates[1].date, parse_date("2026-03-01").unwrap());
    assert_eq!(state.busydays.len(), 0);
}

#[test]
fn accept_on_foreign_invitation_is_not_found() {
    let mut state = fresh_pair();
    befriend(&mut state, ALICE, CAROL);
    let created =
        create_invitation(&mut state, ALICE, &create_req(BOB, &["2026-03-01"]), today(), 0)
            .unwrap();
    let r = accept_invitation(&mut state, CAROL, created.id, &accept_req("2026-03-01"));
    assert!(matches!(r, Err(ApiError::NotFound)));
    let r = accept_invitation(&mut state, ALICE, created.id, &accept_req("2026-03-01"));
    assert!(matches!(r, Err(ApiError::NotFound)));
}

#[test]
fn accept_on_missing_or_resolved_invitation_is_not_found() {
    let mut state = fresh_pair();
    let created =
        create_invitation(&mut state, ALICE, &create_req(BOB, &["2026-03-01"]), today(), 0)
            .unwrap();
    let r = accept_invitation(&mut state, BOB, created.id + 100, &accept_req("2026-03-01"));
    assert!(matches!(r, Err(ApiError::NotFound)));
    accept_invitation(&mut state, BOB, created.id, &accept_req("2026-03-01")).unwrap();
    let r = accept_invitation(&mut state, BOB, created.id, &accept_req("2026-03-01"));
    assert!(matches!(r, Err(ApiError::NotFound)));
}

#[test]
fn accept_with_unproposed_date_is_bad_request() {
    let mut state = fresh_pair();
    let created =
        create_invitation(&mut state, ALICE, &create_req(BOB, &["2026-03-01"]), today(), 0)
            .unwrap();
    let r = accept_invitation(&mut state, BOB, created.id, &accept_req("2026-03-02"));
    assert!(matches!(r, Err(ApiError::BadRequest)));
    assert_eq!(state.invitations[0].status, InvitationStatus::Pending);
    assert_eq!(state.busydays.len(), 0);
}

#[test]
fn accept_with_malformed_date_is_bad_request() {
    let mut state = fresh_pair();
    let created =
        create_invitation(&mut state, ALICE, &create_req(BOB, &["2026-03-01"]), today(), 0)
            .unwrap();
    let r = accept_invitation(&mut state, BOB, created.id, &accept_req("tomorrow"));
    assert!(matches!(r, Err(ApiError::BadRequest)));
}

#[test]
fn successful_accept_claims_the_day_for_both() {
    let mut state = fresh_pair();
    let created =
        create_invitation(&mut state, ALICE, &create_req(BOB, &["2026-03-01", "2026-03-02"]),
            today(), 0)
            .unwrap();
    let resp =
        accept_invitation(&mut state, BOB, created.id, &accept_req("2026-03-01")).unwrap();
    let day = parse_date("2026-03-01").unwrap();
    assert_eq!(resp.status, InvitationStatus::Accepted);
    assert_eq!(resp.selected_date, Some(day));
    assert_eq!(state.invitations[0].status, InvitationStatus::Accepted);
    assert_eq!(state.invitations[0].selected_date, Some(day));
    let alice_claims: Vec<_> =
        state.busydays.iter().filter(|b| b.user_id == ALICE && b.date == day).collect();
    let bob_claims: Vec<_> =
        state.busydays.iter().filter(|b| b.user_id == BOB && b.date == day).collect();
    assert_eq!(alice_claims.len(), 1);
    assert_eq!(bob_claims.len(), 1);
    assert_eq!(state.busydays.len(), 2);
}

#[test]
fn accept_on_a_claimed_day_is_conflict_and_leaves_invitation_pending() {
    let mut state = fresh_pair();
    befriend(&mut state, CAROL, BOB);
    let first =
        create_invitation(&mut state, ALICE, &create_req(BOB, &["2026-03-01"]), today(), 0)
            .unwrap();
    accept_invitation(&mut state, BOB, first.id, &accept_req("2026-03-01")).unwrap();
    let second =
        create_invitation(&mut state, CAROL, &create_req(BOB, &["2026-03-01"]), today(), 0)
            .unwrap();
    let busydays_before = state.busydays.len();
    let r = accept_invitation(&mut state, BOB, second.id, &accept_req("2026-03-01"));
    assert!(matches!(r, Err(ApiError::Conflict)));
    let second_row =
        state.invitations.iter().find(|v| v.id == second.id).unwrap();
    assert_eq!(second_row.status, InvitationStatus::Pending);
    assert_eq!(second_row.selected_date, None);
    assert_eq!(state.busydays.len(), busydays_before);
}

#[test]
fn invitation_scenario_end_to_end() {
    let mut state = SchedulingState::new();
    befriend(&mut state, ALICE, BOB);
    let created = create_invitation(
        &mut state,
        ALICE,
        &create_req(BOB, &["2026-03-01", "2026-03-02"]),
        today(),
        0,
    )
    .unwrap();
    let resp =
        accept_invitation(&mut state, BOB, created.id, &accept_req("2026-03-01")).unwrap();
    let day = parse_date("2026-03-01").unwrap();
    assert_eq!(resp.status, InvitationStatus::Accepted);
    assert_eq!(resp.selected_date, Some(day));
    assert!(state.busydays.iter().any(|b| b.user_id == ALICE && b.date == day));
    assert!(state.busydays.iter().any(|b| b.user_id == BOB && b.date == day));

    befriend(&mut state, CAROL, BOB);
    let second =
        create_invitation(&mut state, CAROL, &create_req(BOB, &["2026-03-01"]), today(), 0)
            .unwrap();
    let r = accept_invitation(&mut state, BOB, second.id, &accept_req("2026-03-01"));
    assert!(matches!(r, Err(ApiError::Conflict)));
}

#[test]
fn decline_flips_status_and_writes_no_claims() {
    let mut state = fresh_pair();
    let created =
        create_invitation(&mut state, ALICE, &create_req(BOB, &["2026-03-01"]), today(), 0)
            .unwrap();
    let resp = decline_invitation(&mut state, BOB, created.id).unwrap();
    assert_eq!(resp.status, InvitationStatus::Declined);
    assert_eq!(resp.selected_date, None);
    assert_eq!(state.invitations[0].status, InvitationStatus::Declined);
    assert_eq!(state.busydays.len(), 0);
}

#[test]
fn redeclining_a_resolved_invitation_is_not_found() {
    let mut state = fresh_pair();
    let created =
        create_invitation(&mut state, ALICE, &create_req(BOB, &["2026-03-01"]), today(), 0)
            .unwrap();
    decline_invitation(&mut state, BOB, created.id).unwrap();
    let r = decline_invitation(&mut state, BOB, created.id);
    assert!(matches!(r, Err(ApiError::NotFound)));
}

#[test]
fn decline_by_sender_is_not_found() {
    let mut state = fresh_pair();
    let created =
        create_invitation(&mut state, ALICE, &create_req(BOB, &["2026-03-01"]), today(), 0)
            .unwrap();
    let r = decline_invitation(&mut state, ALICE, created.id);
    assert!(matches!(r, Err(ApiError::NotFound)));
}

#[test]
fn cancel_deletes_invitation_and_its_dates() {
    let mut state = fresh_pair();
    let created = create_invitation(
        &mut state,
        ALICE,
        &create_req(BOB, &["2026-03-01", "2026-03-02"]),
        today(),
        0,
    )
    .unwrap();
    cancel_invitation(&mut state, ALICE, created.id).unwrap();
    assert_eq!(state.invitations.len(), 0);
    assert_eq!(state.invitation_dates.len(), 0);
}

#[test]
fn cancel_by_recipient_or_on_resolved_invitation_is_not_found() {
    let mut state = fresh_pair();
    let created =
        create_invitation(&mut state, ALICE, &create_req(BOB, &["2026-03-01"]), today(), 0)
            .unwrap();
    let r = cancel_invitation(&mut state, BOB, created.id);
    assert!(matches!(r, Err(ApiError::NotFound)));
    accept_invitation(&mut state, BOB, created.id, &accept_req("2026-03-01")).unwrap();
    let r = cancel_invitation(&mut state, ALICE, created.id);
    assert!(matches!(r, Err(ApiError::NotFound)));
}

#[test]
fn get_invitation_is_for_participants_only() {
    let mut state = fresh_pair();
    let created = create_invitation(
        &mut state,
        ALICE,
        &create_req(BOB, &["2026-03-02", "2026-03-01"]),
        today(),
        7,
    )
    .unwrap();
    let r = get_invitation_by_id(&state, CAROL, created.id);
    assert!(matches!(r, Err(ApiError::Forbidden)));
    let r = get_invitation_by_id(&state, BOB, created.id + 5);
    assert!(matches!(r, Err(ApiError::NotFound)));
    let resp = get_invitation_by_id(&state, BOB, created.id).unwrap();
    assert_eq!(resp.id, created.id);
    assert_eq!(resp.from_user_id, ALICE);
    assert_eq!(resp.to_user_id, BOB);
    assert_eq!(resp.created_at, 7);
    assert_eq!(resp.dates.len(), 2);
    assert_eq!(resp.dates[0].date, parse_date("2026-03-01").unwrap());
    assert_eq!(resp.dates[1].date, parse_date("2026-03-02").unwrap());
}

#[test]
fn listings_show_pending_only_newest_first() {
    let mut state = fresh_pair();
    befriend(&mut state, ALICE, CAROL);
    let first =
        create_invitation(&mut state, ALICE, &create_req(BOB, &["2026-03-01"]), today(), 1)
            .unwrap();
    let second =
        create_invitation(&mut state, ALICE, &create_req(BOB, &["2026-03-02"]), today(), 2)
            .unwrap();
    let third =
        create_invitation(&mut state, ALICE, &create_req(CAROL, &["2026-03-03"]), today(), 3)
            .unwrap();
    decline_invitation(&mut state, CAROL, third.id).unwrap();

    let incoming = get_incoming_invitations(&state, BOB);
    assert_eq!(incoming.len(), 2);
    assert_eq!(incoming[0].id, second.id);
    assert_eq!(incoming[1].id, first.id);

    let outgoing = get_outgoing_invitations(&state, ALICE);
    assert_eq!(outgoing.len(), 2);
    assert_eq!(outgoing[0].id, second.id);
    assert_eq!(outgoing[1].id, first.id);

    assert_eq!(get_incoming_invitations(&state, CAROL).len(), 0);
    assert_eq!(get_outgoing_invitations(&state, BOB).len(), 0);
}

#[test]
fn the_largest_representable_day_can_be_proposed_and_accepted() {
    let mut state = fresh_pair();
    let created =
        create_invitation(&mut state, ALICE, &create_req(BOB, &["9999-12-31"]), today(), 0)
            .unwrap();
    let resp =
        accept_invitation(&mut state, BOB, created.id, &accept_req("9999-12-31")).unwrap();
    assert_eq!(resp.selected_date, parse_date("9999-12-31"));
}

#[test]
fn listings_order_by_creation_time_not_store_order() {
    let mut state = fresh_pair();
    let first =
        create_invitation(&mut state, ALICE, &create_req(BOB, &["2026-03-01"]), today(), 10)
            .unwrap();
    let second =
        create_invitation(&mut state, ALICE, &create_req(BOB, &["2026-03-02"]), today(), 5)
            .unwrap();
    let incoming = get_incoming_invitations(&state, BOB);
    assert_eq!(incoming.len(), 2);
    assert_eq!(incoming[0].id, first.id);
    assert_eq!(incoming[1].id, second.id);
    let outgoing = get_outgoing_invitations(&state, ALICE);
    assert_eq!(outgoing.len(), 2);
    assert_eq!(outgoing[0].id, first.id);
    assert_eq!(outgoing[1].id, second.id);
}
