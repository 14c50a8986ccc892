use resp_kv::ServerState;

#[test]
fn get_missing_key_is_absent() {
    let mut state = ServerState::new();
    assert_eq!(state.get(b"nope", 0), None);
}

#[test]
fn set_then_get_returns_payload() {
    let mut state = ServerState::new();
    state.set(b"k".to_vec(), b"v".to_vec(), None, 100);
    assert_eq!(state.get(b"k", 100), Some(b"v".to_vec()));
    // No time to live: still there arbitrarily far in the future.
    assert_eq!(state.get(b"k", u64::MAX), Some(b"v".to_vec()));
}

#[test]
fn overwrite_takes_last_value() {
    let mut state = ServerState::new();
    state.set(b"k".to_vec(), b"first".to_vec(), None, 1);
    state.set(b"k".to_vec(), b"second".to_vec(), None, 2);
    assert_eq!(state.get(b"k", 3), Some(b"second".to_vec()));
}

#[test]
fn zero_ttl_expires_immediately() {
    let mut state = ServerState::new();
    state.set(b"k".to_vec(), b"v".to_vec(), Some(0), 10);
    assert_eq!(state.get(b"k", 10), None);
    let mut state2 = ServerState::new();
    state2.set(b"k".to_vec(), b"v".to_vec(), Some(0), 10);
    assert_eq!(state2.get(b"k", 11), None);
}

#[test]
fn ttl_expires_at_its_tick() {
    let mut state = ServerState::new();
    state.set(b"k".to_vec(), b"v".to_vec(), Some(5), 10);
    assert_eq!(state.get(b"k", 14), Some(b"v".to_vec()));
    assert_eq!(state.get(b"k", 15), None);
}

#[test]
fn expired_get_purges_the_entry() {
    let mut state = ServerState::new();
    state.set(b"k".to_vec(), b"v".to_vec(), Some(0), 10);
    assert!(state.contains_key(b"k"));
    assert_eq!(state.len(), 1);
    assert_eq!(state.get(b"k", 20), None);
    assert!(!state.contains_key(b"k"));
    assert_eq!(state.len(), 0);
}

#[test]
fn overwriting_does_not_grow_the_store() {
    let mut state = ServerState::new();
    state.set(b"k".to_vec(), b"a".to_vec(), None, 0);
    state.set(b"k".to_vec(), b"b".to_vec(), None, 0);
    assert_eq!(state.len(), 1);
}

#[test]
fn live_get_keeps_the_entry() {
    let mut state = ServerState::new();
    state.set(b"k".to_vec(), b"v".to_vec(), Some(100), 10);
    assert_eq!(state.get(b"k", 50), Some(b"v".to_vec()));
    assert!(state.contains_key(b"k"));
}

#[test]
fn keys_are_independent() {
    let mut state = ServerState::new();
    state.set(b"a".to_vec(), b"1".to_vec(), None, 0);
    state.set(b"b".to_vec(), b"2".to_vec(), Some(0), 0);
    assert_eq!(state.get(b"b", 1), None);
    assert_eq!(state.get(b"a", 1), Some(b"1".to_vec()));
}

#[test]
fn ttl_saturates_instead_of_wrapping() {
    let mut state = ServerState::new();
    state.set(b"k".to_vec(), b"v".to_vec(), Some(u64::MAX), 10);
    assert_eq!(state.get(b"k", u64::MAX - 1), Some(b"v".to_vec()));
}
