use relay_core::dispatcher_manager::DispatcherManager;
use relay_core::identifier::{fingerprint, Identifier};

fn ident(name: &str, key: &[u8]) -> Identifier {
    Identifier {
        username: name.to_string(),
        fingerprint: fingerprint(key),
        public_key: key.to_vec(),
    }
}

#[test]
fn resolve_unregistered_is_absent() {
    let manager = DispatcherManager::new();
    assert!(manager.resolve(&[0u8; 32]).is_none());
}

#[test]
fn registry_liveness() {
    let mut manager = DispatcherManager::new();
    let a = ident("alice", b"ka");
    let s = manager.create_session();
    manager.register_dispatcher(&a, s);
    // resolves while the session lives
    assert_eq!(manager.resolve(&a.fingerprint), Some(s));
    assert_eq!(manager.get_dispatcher(&a), Some(s));
    // once the session has died the stale entry resolves to absent,
    // with no deregistration having run
    manager.end_session(s);
    assert!(manager.resolve(&a.fingerprint).is_none());
    assert!(manager.get_dispatcher(&a).is_none());
}

#[test]
fn deregister_removes_entry() {
    let mut manager = DispatcherManager::new();
    let a = ident("alice", b"ka");
    let s = manager.create_session();
    manager.register_dispatcher(&a, s);
    manager.deregister_dispatcher(&a);
    assert!(manager.resolve(&a.fingerprint).is_none());
    // deregistering an absent fingerprint is a no-op
    manager.deregister_dispatcher(&a);
    assert!(manager.resolve(&a.fingerprint).is_none());
}

#[test]
fn reregistration_last_writer_wins() {
    let mut manager = DispatcherManager::new();
    let a = ident("alice", b"ka");
    let s1 = manager.create_session();
    let s2 = manager.create_session();
    manager.register_dispatcher(&a, s1);
    manager.register_dispatcher(&a, s2);
    assert_eq!(manager.resolve(&a.fingerprint), Some(s2));
    // the first session's death no longer affects the entry
    manager.end_session(s1);
    assert_eq!(manager.resolve(&a.fingerprint), Some(s2));
}

#[test]
fn registrations_are_independent() {
    let mut manager = DispatcherManager::new();
    let a = ident("alice", b"ka");
    let b = ident("bob", b"kb");
    let sa = manager.create_session();
    let sb = manager.create_session();
    manager.register_dispatcher(&a, sa);
    manager.register_dispatcher(&b, sb);
    manager.deregister_dispatcher(&a);
    assert!(manager.resolve(&a.fingerprint).is_none());
    assert_eq!(manager.resolve(&b.fingerprint), Some(sb));
}
