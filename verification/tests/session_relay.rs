use relay_core::dispatcher::{Action, Dispatcher, Frame};
use relay_core::dispatcher_manager::DispatcherManager;
use relay_core::identifier::fingerprint;
use relay_core::identity::Identification;
use relay_core::users::UserManager;

fn identification_frame(username: &str, key: &[u8]) -> Vec<u8> {
    Identification { username: username.to_string(), public_key: key.to_vec() }
        .to_bytes()
        .unwrap()
}

fn relay_frame(target: &[u8; 32], payload: &[u8]) -> Vec<u8> {
    let mut frame = target.to_vec();
    frame.extend_from_slice(payload);
    frame
}

struct World {
    users: UserManager,
    manager: DispatcherManager,
}

fn world() -> World {
    World { users: UserManager::new(), manager: DispatcherManager::new() }
}

fn connect(w: &mut World) -> Dispatcher {
    let s = w.manager.create_session();
    Dispatcher::new(s)
}

fn authenticate(w: &mut World, d: &mut Dispatcher, username: &str, key: &[u8]) {
    let action = d.handle_frame(
        Frame::Binary(identification_frame(username, key)),
        &mut w.users,
        &mut w.manager,
    );
    assert!(matches!(action, Action::Ignore));
}

#[test]
fn full_scenario() {
    // client with key K1 authenticates as alice
    let mut w = world();
    let k1 = b"K1-material";
    let k2 = b"K2-material";
    let fp1 = fingerprint(k1);
    let fp2 = fingerprint(k2);

    let mut session1 = connect(&mut w);
    authenticate(&mut w, &mut session1, "alice", k1);
    // the server derived the fingerprint itself and the directory gained one record
    assert_eq!(w.users.records().len(), 1);
    assert_eq!(w.users.get_user(fp1).unwrap().username, "alice");
    // the registry points the fingerprint at session1's slot
    assert_eq!(w.manager.resolve(&fp1), Some(0));

    // a second client authenticates as bob
    let mut session2 = connect(&mut w);
    authenticate(&mut w, &mut session2, "bob", k2);
    assert_eq!(w.users.records().len(), 2);
    let s2 = w.manager.resolve(&fp2).unwrap();

    // alice relays b"hello" to bob: delivered verbatim, to bob's slot only
    let action = session1.handle_frame(
        Frame::Binary(relay_frame(&fp2, b"hello")),
        &mut w.users,
        &mut w.manager,
    );
    match action {
        Action::Deliver { session, payload } => {
            assert_eq!(session, s2);
            assert_eq!(payload, b"hello".to_vec());
        }
        _ => panic!("expected a delivery"),
    }

    // bob's session dies; the registry now resolves to absent
    session2.connection_closed(&mut w.manager);
    assert!(w.manager.resolve(&fp2).is_none());

    // a further relay to bob is silently dropped
    let action = session1.handle_frame(
        Frame::Binary(relay_frame(&fp2, b"hello again")),
        &mut w.users,
        &mut w.manager,
    );
    assert!(matches!(action, Action::Ignore));
}

#[test]
fn relay_miss_unknown_fingerprint() {
    let mut w = world();
    let mut session1 = connect(&mut w);
    authenticate(&mut w, &mut session1, "alice", b"ka");
    let bogus = [7u8; 32];
    let action = session1.handle_frame(
        Frame::Binary(relay_frame(&bogus, b"into the void")),
        &mut w.users,
        &mut w.manager,
    );
    assert!(matches!(action, Action::Ignore));
}

#[test]
fn short_binary_frame_after_auth_is_dropped() {
    let mut w = world();
    let mut session1 = connect(&mut w);
    authenticate(&mut w, &mut session1, "alice", b"ka");
    let action = session1.handle_frame(
        Frame::Binary(vec![1, 2, 3]),
        &mut w.users,
        &mut w.manager,
    );
    assert!(matches!(action, Action::Ignore));
}

#[test]
fn malformed_identification_closes_session() {
    let mut w = world();
    let mut session1 = connect(&mut w);
    let action = session1.handle_frame(
        Frame::Binary(vec![0xde, 0xad, 0xbe, 0xef]),
        &mut w.users,
        &mut w.manager,
    );
    assert!(matches!(action, Action::Disconnect));
    // nothing was registered anywhere
    assert_eq!(w.users.records().len(), 0);
}

#[test]
fn second_identification_does_not_reregister() {
    let mut w = world();
    let mut session1 = connect(&mut w);
    authenticate(&mut w, &mut session1, "alice", b"ka");
    let fp1 = fingerprint(b"ka");
    // a second identification frame arrives after authentication; it is
    // treated as a relay request, so neither the directory nor the
    // registration changes
    let frame = identification_frame("mallory", b"other-key");
    let _ = session1.handle_frame(Frame::Binary(frame), &mut w.users, &mut w.manager);
    assert_eq!(w.users.records().len(), 1);
    assert_eq!(w.users.get_user(fp1).unwrap().username, "alice");
    assert!(w.users.get_user_by_username("mallory").is_none());
    assert_eq!(w.manager.resolve(&fp1), Some(0));
    assert!(w.manager.resolve(&fingerprint(b"other-key")).is_none());
}

#[test]
fn text_frame_before_auth_closes_session() {
    // a text frame is not a valid identification payload: a protocol
    // fault, answered by closing, with nothing registered anywhere
    let mut w = world();
    let mut session1 = connect(&mut w);
    let action = session1.handle_frame(
        Frame::Text("hello websocket".to_string()),
        &mut w.users,
        &mut w.manager,
    );
    assert!(matches!(action, Action::Disconnect));
    assert_eq!(w.users.records().len(), 0);
}

#[test]
fn text_frame_after_auth_closes_session() {
    // a text frame is not a relay request either: the same fault, and the
    // session's own state stays untouched
    let mut w = world();
    let mut session1 = connect(&mut w);
    authenticate(&mut w, &mut session1, "alice", b"ka");
    let fp1 = fingerprint(b"ka");
    let action = session1.handle_frame(
        Frame::Text("hello websocket".to_string()),
        &mut w.users,
        &mut w.manager,
    );
    assert!(matches!(action, Action::Disconnect));
    // the registration is only dropped once the connection actually ends
    assert_eq!(w.manager.resolve(&fp1), Some(0));
    assert_eq!(w.users.records().len(), 1);
}

#[test]
fn close_frame_deregisters() {
    let mut w = world();
    let mut session1 = connect(&mut w);
    authenticate(&mut w, &mut session1, "alice", b"ka");
    let fp1 = fingerprint(b"ka");
    assert_eq!(w.manager.resolve(&fp1), Some(0));
    let action = session1.handle_frame(Frame::Close, &mut w.users, &mut w.manager);
    assert!(matches!(action, Action::Disconnect));
    assert!(w.manager.resolve(&fp1).is_none());
}

#[test]
fn reconnect_after_close_reauthenticates() {
    let mut w = world();
    let mut session1 = connect(&mut w);
    authenticate(&mut w, &mut session1, "alice", b"ka");
    let _ = session1.handle_frame(Frame::Close, &mut w.users, &mut w.manager);
    session1.connection_closed(&mut w.manager);

    let mut session2 = connect(&mut w);
    authenticate(&mut w, &mut session2, "alice", b"ka");
    let fp1 = fingerprint(b"ka");
    assert_eq!(w.manager.resolve(&fp1), Some(1));
    // the directory did not grow a duplicate record
    assert_eq!(w.users.records().len(), 1);
}
