use std::sync::Arc;

use irc_suite::state::{ServerState, StateError, User, UserId};

fn mk_user(id: UserId) -> User {
    User::new(id)
}

fn mk_state() -> ServerState<Arc<()>> {
    ServerState::new(Arc::new(()))
}

fn named(id: UserId, nick: &[u8]) -> User {
    User { id, nick: Some(nick.to_vec()), registered: false }
}

#[test]
fn state_user_ids_are_monotonically_unique() {
    let mut state = mk_state();
    let a = state.next_user_id();
    let b = state.next_user_id();
    assert_ne!(a, b);
    assert_eq!(a.get() + 1, b.get());
}

#[test]
fn mod_user_ids_are_monotonically_unique() {
    let mut state = mk_state();
    let a = state.next_user_id();
    let b = state.next_user_id();
    assert_ne!(a, b);
    assert_eq!(a.get() + 1, b.get());
}

#[test]
fn claim_then_release_nick() {
    let mut state = mk_state();
    let id = state.next_user_id();
    state.insert_user(mk_user(id));
    state.claim_nick(id, b"alice").unwrap();
    assert!(state.user_by_nick(b"ALICE").is_some(), "casemap-aware");
    state.remove_user(id);
    assert!(state.user_by_nick(b"alice").is_none());
}

#[test]
fn nick_collision_rejected() {
    let mut state = mk_state();
    let a = state.next_user_id();
    let b = state.next_user_id();
    state.insert_user(mk_user(a));
    state.insert_user(mk_user(b));
    state.claim_nick(a, b"alice").unwrap();
    assert_eq!(state.claim_nick(b, b"Alice"), Err(StateError::NickInUse));
}

#[test]
fn reclaiming_own_nick_is_noop() {
    let mut state = mk_state();
    let id = state.next_user_id();
    state.insert_user(mk_user(id));
    state.claim_nick(id, b"alice").unwrap();
    state.claim_nick(id, b"alice").unwrap();
}

#[test]
fn nick_change_releases_prior_slot() {
    let mut state = mk_state();
    let id = state.next_user_id();
    state.insert_user(mk_user(id));
    state.claim_nick(id, b"alice").unwrap();
    assert!(state.set_user_nick(id, b"alice".to_vec()));
    state.claim_nick(id, b"alice2").unwrap();
    assert!(state.set_user_nick(id, b"alice2".to_vec()));
    // Another user can now take "alice".
    let other = state.next_user_id();
    state.insert_user(mk_user(other));
    state.claim_nick(other, b"alice").unwrap();
}

#[test]
fn set_user_nick_updates_live_record_only() {
    let mut state = mk_state();
    let id = state.next_user_id();
    state.insert_user(mk_user(id));
    state.claim_nick(id, b"dora").unwrap();
    assert!(state.set_user_nick(id, b"Dora".to_vec()));
    assert_eq!(state.user(id).unwrap().nick, Some(b"Dora".to_vec()));
    assert_eq!(state.user_by_nick(b"DORA").unwrap().nick, Some(b"Dora".to_vec()));
    let gone = state.next_user_id();
    assert!(!state.set_user_nick(gone, b"x".to_vec()));
    assert!(state.user(gone).is_none());
}

#[test]
fn second_claim_frees_first_nick_without_record() {
    let mut state = mk_state();
    let a = state.next_user_id();
    let b = state.next_user_id();
    state.insert_user(mk_user(a));
    state.insert_user(mk_user(b));
    state.claim_nick(a, b"alice").unwrap();
    state.claim_nick(a, b"bob").unwrap();
    assert!(state.user_by_nick(b"alice").is_none());
    assert_eq!(state.user_by_nick(b"BOB").map(|u| u.id), Some(a));
    assert_eq!(state.claim_nick(b, b"alice"), Ok(()));
    assert_eq!(state.user_by_nick(b"Alice").map(|u| u.id), Some(b));
}

#[test]
fn removal_frees_claimed_nick_without_record() {
    let mut state = mk_state();
    let a = state.next_user_id();
    let b = state.next_user_id();
    state.insert_user(mk_user(a));
    state.insert_user(mk_user(b));
    state.claim_nick(a, b"alice").unwrap();
    assert!(state.remove_user(a).is_some());
    assert!(state.user_by_nick(b"alice").is_none());
    assert_eq!(state.claim_nick(b, b"alice"), Ok(()));
}

#[test]
fn reclaim_after_removal_is_unknown_user() {
    let mut state = mk_state();
    let a = state.next_user_id();
    state.insert_user(mk_user(a));
    state.claim_nick(a, b"alice").unwrap();
    state.remove_user(a);
    assert_eq!(state.claim_nick(a, b"alice"), Err(StateError::UnknownUser));
}

#[test]
fn user_id_round_trips_its_raw_value() {
    assert_eq!(UserId::new(42).get(), 42);
    assert_eq!(UserId::new(7), UserId::new(7));
    assert_ne!(UserId::new(7), UserId::new(8));
}

#[test]
fn set_nick_records_the_nickname() {
    let mut user = User::new(UserId::new(3));
    user.set_nick(b"zed".to_vec());
    assert_eq!(user.nick, Some(b"zed".to_vec()));
    assert_eq!(user.id.get(), 3);
    assert!(!user.is_registered());
}

#[test]
fn first_minted_id_is_one() {
    let mut state = mk_state();
    assert_eq!(state.next_user_id().get(), 1);
    assert_eq!(state.next_user_id().get(), 2);
}

#[test]
fn claiming_for_unknown_user_fails() {
    let mut state = mk_state();
    let id = state.next_user_id();
    assert_eq!(state.claim_nick(id, b"ghost"), Err(StateError::UnknownUser));
    assert!(state.user_by_nick(b"ghost").is_none());
}

#[test]
fn remove_user_is_idempotent() {
    let mut state = mk_state();
    let id = state.next_user_id();
    state.insert_user(named(id, b"bob"));
    state.claim_nick(id, b"bob").unwrap();
    let first = state.remove_user(id);
    assert_eq!(first.map(|u| u.nick), Some(Some(b"bob".to_vec())));
    assert!(state.remove_user(id).is_none());
    assert!(state.user(id).is_none());
    // The nick was released with the user.
    let other = state.next_user_id();
    state.insert_user(mk_user(other));
    assert_eq!(state.claim_nick(other, b"BOB"), Ok(()));
}

#[test]
fn remove_keeps_nick_taken_over_by_someone_else() {
    let mut state = mk_state();
    let a = state.next_user_id();
    let b = state.next_user_id();
    // `a` still records "carol" although `b` owns the slot now.
    state.insert_user(named(a, b"carol"));
    state.insert_user(mk_user(b));
    state.claim_nick(b, b"carol").unwrap();
    state.remove_user(a);
    assert_eq!(state.user_by_nick(b"Carol").map(|u| u.id), Some(b));
}

#[test]
fn rfc1459_casemap_folds_brackets() {
    let mut state = mk_state();
    let id = state.next_user_id();
    state.insert_user(mk_user(id));
    state.claim_nick(id, b"[dan]~").unwrap();
    assert_eq!(state.user_by_nick(b"{DAN}^").map(|u| u.id), Some(id));
}

#[test]
fn registered_count_and_users_snapshot() {
    let mut state = mk_state();
    let a = state.next_user_id();
    let b = state.next_user_id();
    let c = state.next_user_id();
    state.insert_user(User { id: a, nick: None, registered: true });
    state.insert_user(User { id: b, nick: None, registered: false });
    state.insert_user(User { id: c, nick: None, registered: true });
    assert_eq!(state.registered_count(), 2);
    let mut ids: Vec<u64> = state.users().iter().map(|u| u.id.get()).collect();
    ids.sort();
    assert_eq!(ids, vec![1, 2, 3]);
    state.remove_user(a);
    assert_eq!(state.registered_count(), 1);
    assert_eq!(state.users().len(), 2);
}

#[test]
fn config_and_casemap_are_kept() {
    let state: ServerState<u32> = ServerState::new(7);
    assert_eq!(*state.config(), 7);
    assert_eq!(state.casemap(), irc_suite::casemap::Casemap::Rfc1459);
}
