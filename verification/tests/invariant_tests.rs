use daybook::calendar::parse_date_range;
use daybook::date::{parse_date, Date};
use daybook::engine::{accept_invitation, cancel_invitation, create_invitation,
    decline_invitation};
use daybook::error::ApiError;
use daybook::friends::{accept_friend_request, friend_request};
use daybook::model::InvitationStatus;
use daybook::requests::{AcceptInvitationRequest, CreateInvitationRequest};
use daybook::store::SchedulingState;

const ALICE: u128 = 1;
const BOB: u128 = 2;
const CAROL: u128 = 3;

fn today() -> Date {
    parse_date("2026-01-01").unwrap()
}

fn befriend(state: &mut SchedulingState, a: u128, b: u128) {
    friend_request(state, a, b).unwrap();
    accept_friend_request(state, b, a).unwrap();
}

fn create_req(to: u128, dates: &[&str]) -> CreateInvitationRequest {
    CreateInvitationRequest {
        to_user_id: to,
        dates: dates.iter().map(|s| s.to_string()).collect(),
    }
}

/// The cross-entity invariants, checked directly on a stored state.
fn check_invariants(state: &SchedulingState) {
    for inv in &state.invitations {
        // a selected date exactly when accepted
        assert_eq!(
            inv.status == InvitationStatus::Accepted,
            inv.selected_date.is_some()
        );
        if let Some(sel) = inv.selected_date {
            // the selected date comes from the invitation's own proposed set
            assert!(state
                .invitation_dates
                .iter()
                .any(|row| row.invitation_id == inv.id && row.date == sel));
            // both participants hold the day
            assert!(state
                .busydays
                .iter()
                .any(|b| b.user_id == inv.from_user_id && b.date == sel));
            assert!(state
                .busydays
                .iter()
                .any(|b| b.user_id == inv.to_user_id && b.date == sel));
        }
    }
    // no user holds two claims on one date
    for (i, a) in state.busydays.iter().enumerate() {
        for b in state.busydays.iter().skip(i + 1) {
            assert!(!(a.user_id == b.user_id && a.date == b.date));
        }
    }
    // proposed dates are unique per invitation and belong to stored rows
    for (i, a) in state.invitation_dates.iter().enumerate() {
        assert!(state.invitations.iter().any(|inv| inv.id == a.invitation_id));
        for b in state.invitation_dates.iter().skip(i + 1) {
            assert!(!(a.invitation_id == b.invitation_id && a.date == b.date));
        }
    }
}

#[test]
fn invariants_hold_through_a_whole_run() {
    let mut state = SchedulingState::new();
    check_invariants(&state);
    befriend(&mut state, ALICE, BOB);
    befriend(&mut state, CAROL, BOB);
    befriend(&mut state, ALICE, CAROL);

    let a = create_invitation(
        &mut state,
        ALICE,
        &create_req(BOB, &["2026-03-01", "2026-03-02"]),
        today(),
        1,
    )
    .unwrap();
    check_invariants(&state);

    let b = create_invitation(&mut state, CAROL, &create_req(BOB, &["2026-03-01"]), today(), 2)
        .unwrap();
    let c = create_invitation(&mut state, CAROL, &create_req(ALICE, &["2026-03-05"]), today(), 3)
        .unwrap();
    check_invariants(&state);

    accept_invitation(
        &mut state,
        BOB,
        a.id,
        &AcceptInvitationRequest { selected_date: "2026-03-01".to_string() },
    )
    .unwrap();
    check_invariants(&state);

    let r = accept_invitation(
        &mut state,
        BOB,
        b.id,
        &AcceptInvitationRequest { selected_date: "2026-03-01".to_string() },
    );
    assert!(matches!(r, Err(ApiError::Conflict)));
    check_invariants(&state);

    decline_invitation(&mut state, BOB, b.id).unwrap();
    check_invariants(&state);

    cancel_invitation(&mut state, CAROL, c.id).unwrap();
    check_invariants(&state);

    let d = create_invitation(&mut state, CAROL, &create_req(ALICE, &["2026-03-02"]), today(), 4)
        .unwrap();
    accept_invitation(
        &mut state,
        ALICE,
        d.id,
        &AcceptInvitationRequest { selected_date: "2026-03-02".to_string() },
    )
    .unwrap();
    check_invariants(&state);
}

#[test]
fn range_parsing_orders_its_endpoints() {
    let (from, to) = parse_date_range("2026-01-01", "2026-01-01").unwrap();
    assert_eq!(from, to);
    let (from, to) = parse_date_range("2026-01-01", "2026-12-31").unwrap();
    assert!(from != to);
    assert!(matches!(
        parse_date_range("2026-12-31", "2026-01-01"),
        Err(ApiError::BadRequest)
    ));
    assert!(matches!(parse_date_range("junk", "2026-01-01"), Err(ApiError::BadRequest)));
    assert!(matches!(parse_date_range("2026-01-01", "junk"), Err(ApiError::BadRequest)));
}
