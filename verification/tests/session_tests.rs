use iggy_core::error::Error;
use iggy_core::message::Message;
use iggy_core::partition::Partition;
use iggy_core::permissioner::Permissioner;
use iggy_core::session::{authorize_poll, authorize_send, logout_decision, Session};

#[test]
fn logout_requires_authentication() {
    let mut s = Session::new(5, 77);
    s.clear_user_id();
    let r = logout_decision(&s);
    assert!(matches!(r, Err(Error::Unauthenticated)));
}

#[test]
fn logout_clears_identity() {
    let mut s = Session::new(5, 77);
    let action = logout_decision(&s).unwrap();
    assert_eq!(action.user_id, 5);
    assert_eq!(action.client_id, 77);
    // the decision alone leaves the session untouched, as a failed
    // server-side logout must
    assert!(s.is_authenticated());
    s.clear_user_id();
    assert!(!s.is_authenticated());
    assert_eq!(s.user_id, 0);
    // a second logout now fails
    assert!(matches!(logout_decision(&s), Err(Error::Unauthenticated)));
}

#[test]
fn stateless_sessions_carry_only_identity() {
    let s = Session::stateless(42);
    assert_eq!(s.user_id, 42);
    assert_eq!(s.client_id, 0);
    assert!(s.is_authenticated());
}

#[test]
fn publish_denied_without_grant_leaves_partition_untouched() {
    // a user with neither a global send grant nor a stream grant
    let perm = Permissioner::new();
    let session = Session::new(10, 1);
    let mut partition = Partition::new(1, 0, 1024);
    let decision = authorize_send(&perm, &session, 1);
    assert!(matches!(decision, Err(Error::Unauthorized)));
    // an append happens only when authorization allows it
    if decision.is_ok() {
        let m = Message {
            offset: 0,
            state: 1,
            timestamp: 0,
            id: 0,
            checksum: 0,
            headers: Vec::new(),
            payload: b"x".to_vec(),
        };
        partition.append_messages(1, vec![m]).unwrap();
    }
    assert_eq!(partition.next_offset, 0);
}

#[test]
fn unauthenticated_checks_fail_first() {
    let perm = Permissioner::new();
    let mut session = Session::new(10, 1);
    session.clear_user_id();
    assert!(matches!(authorize_send(&perm, &session, 1), Err(Error::Unauthenticated)));
    assert!(matches!(authorize_poll(&perm, &session, 1), Err(Error::Unauthenticated)));
}
