use relay_core::identifier::fingerprint;
use relay_core::user::{resolve_user, sanitize_username};

#[test]
fn fingerprint_known_answer() {
    // the SHA-256 digest of "abc"
    let expected: [u8; 32] = [
        0xba, 0x78, 0x16, 0xbf, 0x8f, 0x01, 0xcf, 0xea, 0x41, 0x41, 0x40, 0xde, 0x5d, 0xae, 0x22,
        0x23, 0xb0, 0x03, 0x61, 0xa3, 0x96, 0x17, 0x7a, 0x9c, 0xb4, 0x10, 0xff, 0x61, 0xf2, 0x00,
        0x15, 0xad,
    ];
    assert_eq!(fingerprint(b"abc"), expected);
}

#[test]
fn fingerprint_deterministic() {
    let key = b"some public key material";
    assert_eq!(fingerprint(key), fingerprint(key));
    assert_eq!(fingerprint(&key.to_vec()), fingerprint(key));
    assert_ne!(fingerprint(b"another key"), fingerprint(key));
}

#[test]
fn stored_username_wins() {
    let r = resolve_user(Some("alice".to_string()), "whatever was typed");
    assert_eq!(r, Some("alice".to_string()));
}

#[test]
fn typed_username_is_sanitized() {
    assert_eq!(resolve_user(None, "alice\n"), Some("alice".to_string()));
    assert_eq!(sanitize_username("bob!@# the builder"), Some("bobthebuil".to_string()));
    assert_eq!(sanitize_username("a_b.c-d"), Some("a_b.c-d".to_string()));
    assert_eq!(sanitize_username("x".repeat(40).as_str()), Some("x".repeat(10)));
}

#[test]
fn unusable_input_asks_again() {
    assert_eq!(resolve_user(None, ""), None);
    assert_eq!(resolve_user(None, " \t\n!?*"), None);
    assert_eq!(sanitize_username("€€€"), None);
}
