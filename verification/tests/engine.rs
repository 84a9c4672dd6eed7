//! End-to-end behavior of the room event engine on a private, initially
//! empty store: room existence, history order, vote idempotence, and the
//! validation failures.

use band::state::State;
use band::store::Store;
use band::types::ApiError;

fn fresh_state() -> State {
    let store = Store::open_temporary().expect("temporary store should open");
    State::new(store)
}

#[test]
fn created_room_exists_immediately() {
    let mut st = fresh_state();
    let room = st.create_room().expect("room creation should succeed");
    assert_eq!(st.store.room_exists(room).unwrap(), true);
}

#[test]
fn never_created_room_does_not_exist() {
    let st = fresh_state();
    assert_eq!(st.store.room_exists(0).unwrap(), false);
    assert_eq!(st.store.room_exists(12345).unwrap(), false);
    assert_eq!(st.store.room_exists(u64::MAX).unwrap(), false);
}

#[test]
fn two_rooms_are_distinct() {
    let mut st = fresh_state();
    let r1 = st.create_room().unwrap();
    let r2 = st.create_room().unwrap();
    assert_ne!(r1, r2);
    assert!(st.store.room_exists(r1).unwrap());
    assert!(st.store.room_exists(r2).unwrap());
}

#[test]
fn scenario_first_message() {
    let mut st = fresh_state();
    let room = st.create_room().unwrap();
    let session = st.create_session(room, "alice").unwrap();
    let out = st.post_message(room, session, "hi".to_string()).unwrap();
    assert_eq!(out.id, 0);
    assert_eq!(out.body, "hi");
    assert_eq!(out.user, "alice");
    assert_eq!(out.votes, 0);

    let hist = st.get_history(room).unwrap();
    assert_eq!(hist.len(), 1);
    assert_eq!(hist[0].id, out.id);
    assert_eq!(hist[0].body, "hi");
    assert_eq!(hist[0].user, "alice");
    assert_eq!(hist[0].votes, 0);
    assert_eq!(hist[0].ts, out.ts);
}

#[test]
fn history_in_posting_order_without_gaps() {
    let mut st = fresh_state();
    let room = st.create_room().unwrap();
    let session = st.create_session(room, "alice").unwrap();
    for k in 0..10u64 {
        let out = st
            .post_message(room, session, format!("message {}", k))
            .unwrap();
        assert_eq!(out.id, k);
    }
    let hist = st.get_history(room).unwrap();
    assert_eq!(hist.len(), 10);
    for k in 0..10usize {
        assert_eq!(hist[k].id, k as u64);
        assert_eq!(hist[k].body, format!("message {}", k));
    }
}

#[test]
fn message_ids_are_scoped_per_room() {
    let mut st = fresh_state();
    let r1 = st.create_room().unwrap();
    let r2 = st.create_room().unwrap();
    let s1 = st.create_session(r1, "alice").unwrap();
    let s2 = st.create_session(r2, "bob").unwrap();
    let a = st.post_message(r1, s1, "one".to_string()).unwrap();
    let b = st.post_message(r2, s2, "other room".to_string()).unwrap();
    // Each room's numbering starts at zero, independent of the other.
    assert_eq!(a.id, 0);
    assert_eq!(b.id, 0);
    let c = st.post_message(r1, s1, "two".to_string()).unwrap();
    assert_eq!(c.id, 1);
    assert_eq!(st.get_history(r2).unwrap().len(), 1);
}

#[test]
fn scenario_vote_counts() {
    let mut st = fresh_state();
    let room = st.create_room().unwrap();
    let author = st.create_session(room, "alice").unwrap();
    let s2 = st.create_session(room, "bob").unwrap();
    let s3 = st.create_session(room, "carol").unwrap();
    let m1 = st.post_message(room, author, "vote on me".to_string()).unwrap().id;

    let vc = st.cast_vote(room, s2, m1, true).unwrap();
    assert_eq!(vc.message, m1);
    assert_eq!(vc.delta, 1);
    st.cast_vote(room, s3, m1, true).unwrap();
    assert_eq!(st.store.count_votes(room, m1).unwrap(), 2);

    let vc = st.cast_vote(room, s2, m1, false).unwrap();
    assert_eq!(vc.delta, -1);
    assert_eq!(st.store.count_votes(room, m1).unwrap(), 1);
}

#[test]
fn setting_a_vote_twice_does_not_double_count() {
    let mut st = fresh_state();
    let room = st.create_room().unwrap();
    let author = st.create_session(room, "alice").unwrap();
    let voter = st.create_session(room, "bob").unwrap();
    let m1 = st.post_message(room, author, "once".to_string()).unwrap().id;

    st.cast_vote(room, voter, m1, true).unwrap();
    assert_eq!(st.store.count_votes(room, m1).unwrap(), 1);
    st.cast_vote(room, voter, m1, true).unwrap();
    assert_eq!(st.store.count_votes(room, m1).unwrap(), 1);
}

#[test]
fn resetting_an_absent_vote_is_a_no_op() {
    let mut st = fresh_state();
    let room = st.create_room().unwrap();
    let author = st.create_session(room, "alice").unwrap();
    let voter = st.create_session(room, "bob").unwrap();
    let m1 = st.post_message(room, author, "nothing yet".to_string()).unwrap().id;

    assert_eq!(st.store.count_votes(room, m1).unwrap(), 0);
    st.cast_vote(room, voter, m1, false).unwrap();
    assert_eq!(st.store.count_votes(room, m1).unwrap(), 0);
}

#[test]
fn votes_count_only_their_own_message() {
    let mut st = fresh_state();
    let room = st.create_room().unwrap();
    let author = st.create_session(room, "alice").unwrap();
    let voter = st.create_session(room, "bob").unwrap();
    let m0 = st.post_message(room, author, "first".to_string()).unwrap().id;
    let m1 = st.post_message(room, author, "second".to_string()).unwrap().id;

    st.cast_vote(room, voter, m0, true).unwrap();
    assert_eq!(st.store.count_votes(room, m0).unwrap(), 1);
    assert_eq!(st.store.count_votes(room, m1).unwrap(), 0);
}

#[test]
fn history_reports_live_vote_counts() {
    let mut st = fresh_state();
    let room = st.create_room().unwrap();
    let author = st.create_session(room, "alice").unwrap();
    let voter = st.create_session(room, "bob").unwrap();
    let m0 = st.post_message(room, author, "popular".to_string()).unwrap().id;
    st.cast_vote(room, voter, m0, true).unwrap();
    st.cast_vote(room, author, m0, true).unwrap();

    let hist = st.get_history(room).unwrap();
    assert_eq!(hist.len(), 1);
    assert_eq!(hist[0].votes, 2);
}

#[test]
fn scenario_validation_failures() {
    let mut st = fresh_state();
    let r1 = st.create_room().unwrap();
    let r2 = st.create_room().unwrap();
    let s2 = st.create_session(r2, "bob").unwrap();

    // Posting to a room that was never created fails with RoomNotFound.
    let mut absent_room = 7u64;
    while absent_room == r1 || absent_room == r2 {
        absent_room += 1;
    }
    let err = st
        .post_message(absent_room, s2, "lost".to_string())
        .unwrap_err();
    assert_eq!(err, ApiError::RoomNotFound);

    // Posting with a session created in another room fails with
    // InvalidSession.
    let err = st.post_message(r1, s2, "wrong door".to_string()).unwrap_err();
    assert_eq!(err, ApiError::InvalidSession);

    // The same validation applies to votes.
    let err = st.cast_vote(absent_room, s2, 0, true).unwrap_err();
    assert_eq!(err, ApiError::RoomNotFound);
    let err = st.cast_vote(r1, s2, 0, true).unwrap_err();
    assert_eq!(err, ApiError::InvalidSession);

    // And to history and subscription.
    let err = st.get_history(absent_room).unwrap_err();
    assert_eq!(err, ApiError::RoomNotFound);
    let sub = st.subscribe(absent_room);
    assert!(matches!(sub, Err(ApiError::RoomNotFound)));

    // A failed request leaves no trace in the history.
    assert_eq!(st.get_history(r1).unwrap().len(), 0);
}

#[test]
fn session_lookup_and_label_update() {
    let mut st = fresh_state();
    let room = st.create_room().unwrap();
    let session = st.create_session(room, "alice").unwrap();

    let stored = st.store.get_session(room, session).unwrap().unwrap();
    assert_eq!(stored.user, "alice");

    let out = st.post_message(room, session, "early".to_string()).unwrap();
    assert_eq!(out.user, "alice");

    // Renaming the session changes the label but keeps the creation time,
    // and history resolves the label at read time.
    let updated = st.store.set_user(room, session, "alicia").unwrap();
    assert_eq!(updated, Some(()));
    let renamed = st.store.get_session(room, session).unwrap().unwrap();
    assert_eq!(renamed.user, "alicia");
    assert_eq!(renamed.ts, stored.ts);

    let hist = st.get_history(room).unwrap();
    assert_eq!(hist[0].user, "alicia");

    // Updating a session that does not exist changes nothing and reports
    // the miss.
    let missing = st.store.set_user(room, session.wrapping_add(1), "nobody").unwrap();
    assert_eq!(missing, None);
}

#[test]
fn session_is_scoped_to_its_room() {
    let mut st = fresh_state();
    let r1 = st.create_room().unwrap();
    let r2 = st.create_room().unwrap();
    let s1 = st.create_session(r1, "alice").unwrap();
    assert!(st.store.get_session(r1, s1).unwrap().is_some());
    assert!(st.store.get_session(r2, s1).unwrap().is_none());
    let err = st.require_session(r2, s1).unwrap_err();
    assert_eq!(err, ApiError::InvalidSession);
}

#[test]
fn creating_a_session_in_a_missing_room_fails() {
    let mut st = fresh_state();
    let err = st.create_session(99, "nobody").unwrap_err();
    assert_eq!(err, ApiError::RoomNotFound);
}

#[test]
fn storage_failure_on_an_unusable_path() {
    // A path under a non-directory cannot hold a database: the store
    // reports the I/O fault as a storage failure rather than panicking.
    let r = Store::new("/dev/null/not-a-directory");
    assert!(matches!(r, Err(ApiError::StorageFailure)));
}

#[test]
fn iter_messages_and_all_sessions() {
    let mut st = fresh_state();
    let room = st.create_room().unwrap();
    let s1 = st.create_session(room, "alice").unwrap();
    let s2 = st.create_session(room, "bob").unwrap();
    st.post_message(room, s1, "from alice".to_string()).unwrap();
    st.post_message(room, s2, "from bob".to_string()).unwrap();

    let msgs = st.store.iter_messages(room).unwrap();
    assert_eq!(msgs.len(), 2);
    assert_eq!(msgs[0].0, 0);
    assert_eq!(msgs[0].1.body, "from alice");
    assert_eq!(msgs[1].0, 1);
    assert_eq!(msgs[1].1.session, s2);

    let sessions = st.store.all_sessions(room).unwrap();
    assert_eq!(sessions.len(), 2);
    assert_eq!(sessions.get(&s1).unwrap().user, "alice");
    assert_eq!(sessions.get(&s2).unwrap().user, "bob");
}

#[test]
fn iter_votes_lists_exactly_a_sessions_votes() {
    let mut st = fresh_state();
    let room = st.create_room().unwrap();
    let author = st.create_session(room, "alice").unwrap();
    let voter = st.create_session(room, "bob").unwrap();
    let m0 = st.post_message(room, author, "a".to_string()).unwrap().id;
    let m1 = st.post_message(room, author, "b".to_string()).unwrap().id;
    let m2 = st.post_message(room, author, "c".to_string()).unwrap().id;

    st.cast_vote(room, voter, m0, true).unwrap();
    st.cast_vote(room, voter, m2, true).unwrap();
    st.cast_vote(room, author, m1, true).unwrap();

    let mut votes = st.store.iter_votes(room, voter).unwrap();
    votes.sort();
    assert_eq!(votes, vec![m0, m2]);

    let votes_of_author = st.store.iter_votes(room, author).unwrap();
    assert_eq!(votes_of_author, vec![m1]);

    st.cast_vote(room, voter, m2, false).unwrap();
    assert_eq!(st.store.iter_votes(room, voter).unwrap(), vec![m0]);
}

#[test]
fn history_with_skipped_reports_no_integrity_loss() {
    // Through the public API every message's author session exists, so
    // the integrity-flagging read returns the same records as the plain
    // one and reports zero skipped records.
    let mut st = fresh_state();
    let room = st.create_room().unwrap();
    let session = st.create_session(room, "alice").unwrap();
    st.post_message(room, session, "one".to_string()).unwrap();
    st.post_message(room, session, "two".to_string()).unwrap();

    let (records, skipped) = st.get_history_with_skipped(room).unwrap();
    assert_eq!(skipped, 0);
    assert_eq!(records.len(), 2);
    assert_eq!(records[0].body, "one");
    assert_eq!(records[1].body, "two");
}
