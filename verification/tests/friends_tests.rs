use daybook::error::ApiError;
use daybook::friends::{accept_friend_request, are_users_accepted_friends, friend_request,
    get_friends, get_incoming, get_outgoing, reject_friend_request, remove_friend};
use daybook::model::FriendshipStatus;
use daybook::store::SchedulingState;

const ALICE: u128 = 1;
const BOB: u128 = 2;
const CAROL: u128 = 3;

#[test]
fn requesting_oneself_is_malformed() {
    let mut state = SchedulingState::new();
    let r = friend_request(&mut state, ALICE, ALICE);
    assert!(matches!(r, Err(ApiError::BadRequest)));
    assert_eq!(state.friendships.len(), 0);
}

#[test]
fn request_then_accept_makes_friends() {
    let mut state = SchedulingState::new();
    friend_request(&mut state, ALICE, BOB).unwrap();
    assert_eq!(state.friendships.len(), 1);
    assert_eq!(state.friendships[0].status, FriendshipStatus::Pending);
    assert!(!are_users_accepted_friends(&state, ALICE, BOB));
    accept_friend_request(&mut state, BOB, ALICE).unwrap();
    assert!(are_users_accepted_friends(&state, ALICE, BOB));
    assert!(are_users_accepted_friends(&state, BOB, ALICE));
    assert!(!are_users_accepted_friends(&state, ALICE, CAROL));
}

#[test]
fn accepting_a_missing_request_is_not_found() {
    let mut state = SchedulingState::new();
    let r = accept_friend_request(&mut state, BOB, ALICE);
    assert!(matches!(r, Err(ApiError::NotFound)));
    friend_request(&mut state, ALICE, BOB).unwrap();
    let r = accept_friend_request(&mut state, ALICE, BOB);
    assert!(matches!(r, Err(ApiError::NotFound)));
    let r = accept_friend_request(&mut state, BOB, BOB);
    assert!(matches!(r, Err(ApiError::BadRequest)));
}

#[test]
fn rejecting_deletes_the_request() {
    let mut state = SchedulingState::new();
    friend_request(&mut state, ALICE, BOB).unwrap();
    reject_friend_request(&mut state, BOB, ALICE).unwrap();
    assert_eq!(state.friendships.len(), 0);
    let r = reject_friend_request(&mut state, BOB, ALICE);
    assert!(matches!(r, Err(ApiError::NotFound)));
}

#[test]
fn removing_a_friend_deletes_the_accepted_link() {
    let mut state = SchedulingState::new();
    friend_request(&mut state, ALICE, BOB).unwrap();
    accept_friend_request(&mut state, BOB, ALICE).unwrap();
    let r = remove_friend(&mut state, ALICE, ALICE);
    assert!(matches!(r, Err(ApiError::BadRequest)));
    remove_friend(&mut state, BOB, ALICE).unwrap();
    assert!(!are_users_accepted_friends(&state, ALICE, BOB));
    let r = remove_friend(&mut state, BOB, ALICE);
    assert!(matches!(r, Err(ApiError::NotFound)));
}

#[test]
fn removing_a_pending_request_is_not_found() {
    let mut state = SchedulingState::new();
    friend_request(&mut state, ALICE, BOB).unwrap();
    let r = remove_friend(&mut state, BOB, ALICE);
    assert!(matches!(r, Err(ApiError::NotFound)));
}

#[test]
fn friend_listing_covers_both_orientations_without_duplicates() {
    let mut state = SchedulingState::new();
    friend_request(&mut state, ALICE, BOB).unwrap();
    accept_friend_request(&mut state, BOB, ALICE).unwrap();
    friend_request(&mut state, CAROL, ALICE).unwrap();
    accept_friend_request(&mut state, ALICE, CAROL).unwrap();
    // a duplicate accepted row in the other orientation
    friend_request(&mut state, BOB, ALICE).unwrap();
    accept_friend_request(&mut state, ALICE, BOB).unwrap();
    let friends = get_friends(&state, ALICE);
    assert_eq!(friends.len(), 2);
    assert!(friends.contains(&BOB));
    assert!(friends.contains(&CAROL));
    let friends = get_friends(&state, BOB);
    assert_eq!(friends, vec![ALICE]);
}

#[test]
fn pending_listings_split_by_direction() {
    let mut state = SchedulingState::new();
    friend_request(&mut state, ALICE, BOB).unwrap();
    friend_request(&mut state, CAROL, BOB).unwrap();
    friend_request(&mut state, BOB, CAROL).unwrap();
    let incoming = get_incoming(&state, BOB);
    assert_eq!(incoming.len(), 2);
    assert!(incoming.contains(&ALICE));
    assert!(incoming.contains(&CAROL));
    let outgoing = get_outgoing(&state, BOB);
    assert_eq!(outgoing, vec![CAROL]);
    assert_eq!(get_incoming(&state, ALICE).len(), 0);
    assert_eq!(get_outgoing(&state, ALICE), vec![BOB]);
}
