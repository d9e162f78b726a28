use relay_core::contacts::ContactsList;
use relay_core::identifier::{fingerprint, Identifier};
use relay_core::users::UserManager;

fn ident(name: &str, key: &[u8]) -> Identifier {
    Identifier {
        username: name.to_string(),
        fingerprint: fingerprint(key),
        public_key: key.to_vec(),
    }
}

#[test]
fn empty_directory_resolves_nothing() {
    let users = UserManager::new();
    assert!(users.get_user([0u8; 32]).is_none());
    assert!(users.get_user_by_username("alice").is_none());
}

#[test]
fn add_then_get_by_both_keys() {
    let mut users = UserManager::new();
    let a = ident("alice", b"key-a");
    users.add_user(a.clone());
    let by_fp = users.get_user(a.fingerprint).unwrap();
    assert_eq!(by_fp.username, "alice");
    assert_eq!(by_fp.public_key, b"key-a".to_vec());
    let by_name = users.get_user_by_username("alice").unwrap();
    assert_eq!(by_name.fingerprint, a.fingerprint);
    assert!(users.get_user_by_username("bob").is_none());
}

#[test]
fn duplicate_username_latest_wins() {
    let mut users = UserManager::new();
    users.add_user(ident("alice", b"first-key"));
    users.add_user(ident("alice", b"second-key"));
    let got = users.get_user_by_username("alice").unwrap();
    assert_eq!(got.public_key, b"second-key".to_vec());
    // both records stay; the older one still resolves by fingerprint
    let old_fp = fingerprint(b"first-key");
    assert_eq!(users.get_user(old_fp).unwrap().public_key, b"first-key".to_vec());
    assert_eq!(users.records().len(), 2);
}

#[test]
fn directory_round_trip_reload() {
    let mut users = UserManager::new();
    let names = ["alice", "bob", "carol", "dave", "erin"];
    for (i, name) in names.iter().enumerate() {
        users.add_user(ident(name, format!("key-{i}").as_bytes()));
    }
    // persistably reload from the record sequence alone
    let reloaded = UserManager::from_records(users.records().clone());
    assert_eq!(reloaded.records().len(), names.len());
    for (i, name) in names.iter().enumerate() {
        let key = format!("key-{i}");
        let fp = fingerprint(key.as_bytes());
        let by_fp = reloaded.get_user(fp).unwrap();
        assert_eq!(by_fp.username, *name);
        let by_name = reloaded.get_user_by_username(name).unwrap();
        assert_eq!(by_name.public_key, key.as_bytes().to_vec());
    }
}

#[test]
fn contacts_list_keeps_filepath_and_records() {
    let mut contacts = ContactsList::new("users.json".to_string());
    assert_eq!(contacts.filepath(), "users.json");
    assert!(contacts.get_by_username("alice").is_none());
    let a = ident("alice", b"contact-key");
    contacts.add(a.clone());
    assert_eq!(contacts.get_by_fingerprint(&a.fingerprint).unwrap().username, "alice");
    assert_eq!(contacts.get_by_username("alice").unwrap().public_key, b"contact-key".to_vec());
    assert_eq!(contacts.records().len(), 1);
}

#[test]
fn contacts_list_load_records_rebuilds_indexes() {
    let mut contacts = ContactsList::new("contacts.json".to_string());
    contacts.add(ident("alice", b"ka"));
    contacts.add(ident("bob", b"kb"));
    let saved = contacts.records().clone();

    let mut reloaded = ContactsList::new("contacts.json".to_string());
    reloaded.load_records(saved);
    assert_eq!(reloaded.get_by_username("bob").unwrap().public_key, b"kb".to_vec());
    assert_eq!(
        reloaded.get_by_fingerprint(&fingerprint(b"ka")).unwrap().username,
        "alice"
    );
}
