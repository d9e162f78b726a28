use relay_core::identity::Identification;

fn enc(username: &str, public_key: &[u8]) -> Vec<u8> {
    Identification { username: username.to_string(), public_key: public_key.to_vec() }
        .to_bytes()
        .unwrap()
}

#[test]
fn encode_exact_bytes() {
    let bytes = enc("alice", &[1, 2, 3]);
    let expected: Vec<u8> = vec![
        0xa2, // map of two pairs
        0x68, 0x75, 0x73, 0x65, 0x72, 0x6e, 0x61, 0x6d, 0x65, // "username"
        0x65, 0x61, 0x6c, 0x69, 0x63, 0x65, // "alice"
        0x6a, 0x70, 0x75, 0x62, 0x6c, 0x69, 0x63, 0x5f, 0x6b, 0x65, 0x79, // "public_key"
        0x43, 0x01, 0x02, 0x03, // three key bytes
    ];
    assert_eq!(bytes, expected);
}

#[test]
fn round_trip_simple() {
    let bytes = enc("alice", &[9, 8, 7, 6]);
    let id = Identification::from_bytes(&bytes).unwrap();
    assert_eq!(id.username, "alice");
    assert_eq!(id.public_key, vec![9, 8, 7, 6]);
}

#[test]
fn round_trip_empty_fields() {
    let bytes = enc("", &[]);
    let id = Identification::from_bytes(&bytes).unwrap();
    assert_eq!(id.username, "");
    assert_eq!(id.public_key, Vec::<u8>::new());
}

#[test]
fn round_trip_non_ascii_username() {
    let bytes = enc("ålice\u{1F600}", &[0xde, 0xad]);
    let id = Identification::from_bytes(&bytes).unwrap();
    assert_eq!(id.username, "ålice\u{1F600}");
    assert_eq!(id.public_key, vec![0xde, 0xad]);
}

#[test]
fn round_trip_long_key() {
    // long enough that the byte-string header needs its two-byte form
    let key: Vec<u8> = (0..=255u8).cycle().take(300).collect();
    let bytes = enc("bob", &key);
    let id = Identification::from_bytes(&bytes).unwrap();
    assert_eq!(id.public_key, key);
}

#[test]
fn decode_rejects_empty() {
    assert!(Identification::from_bytes(&[]).is_err());
}

#[test]
fn decode_rejects_wrong_map_byte() {
    let mut bytes = enc("alice", &[1]);
    bytes[0] = 0xa3;
    assert!(Identification::from_bytes(&bytes).is_err());
}

#[test]
fn decode_rejects_wrong_key_name() {
    let mut bytes = enc("alice", &[1]);
    bytes[2] = 0x76; // "vsername"
    assert!(Identification::from_bytes(&bytes).is_err());
}

#[test]
fn decode_rejects_truncated() {
    let bytes = enc("alice", &[1, 2, 3]);
    assert!(Identification::from_bytes(&bytes[..bytes.len() - 1]).is_err());
}

#[test]
fn decode_rejects_trailing_garbage() {
    let mut bytes = enc("alice", &[1, 2, 3]);
    bytes.push(0x00);
    assert!(Identification::from_bytes(&bytes).is_err());
}

#[test]
fn decode_rejects_non_canonical_length() {
    // "alice" length 5 written in the two-byte header form 0x78 0x05,
    // where the canonical form is the single byte 0x65
    let mut bytes = vec![0xa2];
    bytes.extend_from_slice(b"\x68username");
    bytes.extend_from_slice(&[0x78, 0x05]);
    bytes.extend_from_slice(b"alice");
    bytes.extend_from_slice(b"\x6apublic_key");
    bytes.push(0x40);
    assert!(Identification::from_bytes(&bytes).is_err());
}

#[test]
fn decode_rejects_invalid_utf8_username() {
    let mut bytes = vec![0xa2];
    bytes.extend_from_slice(b"\x68username");
    bytes.extend_from_slice(&[0x61, 0xff]); // one-byte text that is not UTF-8
    bytes.extend_from_slice(b"\x6apublic_key");
    bytes.push(0x40);
    assert!(Identification::from_bytes(&bytes).is_err());
}

#[test]
fn round_trip_long_username() {
    // long enough that the text header needs its two-byte form
    let name = "a-very-long-username-indeed-beyond-the-short-header".repeat(2);
    let bytes = enc(&name, &[5]);
    let id = Identification::from_bytes(&bytes).unwrap();
    assert_eq!(id.username, name);
}
