//! The in-memory credential store and the routing table.

use confidante::jid::Jid;
use confidante::router::RouterTable;
use confidante::store::{FakeStoreBackend, StoredPasswordArgon2, StoredPasswordKind};

#[test]
fn store_query_returns_what_was_stored() {
    let stored_password_argon2 = "super secret password";
    let mut store = FakeStoreBackend::default();
    let jid = Jid::parse_text("user@localhost/resource").unwrap();
    store
        .set_stored_password(
            &jid,
            StoredPasswordKind::Argon2,
            stored_password_argon2.to_string(),
        )
        .unwrap();
    let retrieved_password = store
        .get_stored_password(&jid, StoredPasswordKind::Argon2)
        .unwrap();
    assert_eq!(stored_password_argon2, retrieved_password);
}

#[test]
fn missing_entry_is_not_found() {
    let store = FakeStoreBackend::default();
    let jid = Jid::parse_text("ghost@localhost").unwrap();
    assert!(store
        .get_stored_password(&jid, StoredPasswordKind::ScramSha1)
        .is_err());
}

#[test]
fn add_user_fills_all_kinds() {
    let mut store = FakeStoreBackend::default();
    let jid = Jid::parse_text("user@localhost").unwrap();
    store
        .add_user(&jid, "a".to_string(), "b".to_string(), "c".to_string())
        .unwrap();
    assert_eq!(
        store
            .get_stored_password(&jid, StoredPasswordKind::ScramSha256)
            .unwrap(),
        "c"
    );
    store.remove_user(&jid).unwrap();
    assert!(store
        .get_stored_password(&jid, StoredPasswordKind::Argon2)
        .is_err());
}

#[test]
fn argon2_entry_verifies_its_password() {
    let entry = StoredPasswordArgon2::new("password").unwrap();
    assert!(entry.verify_password("password"));
    assert!(!entry.verify_password("wrong"));
    let reparsed = StoredPasswordArgon2::parse(entry.format().as_str()).unwrap();
    assert!(reparsed.verify_password("password"));
}

#[test]
fn argon2_parse_rejects_non_phc_text() {
    assert!(StoredPasswordArgon2::parse("not a phc string").is_err());
    assert!(StoredPasswordArgon2::parse("").is_err());
}

/// Registering an already-registered JID replaces the mailbox; the old
/// one is no longer bound.
#[test]
fn register_replaces_the_mailbox() {
    let mut table = RouterTable::new();
    let jid = Jid::parse_text("user@localhost/resource").unwrap();
    table.register(jid.duplicate(), 1);
    assert_eq!(table.lookup(&jid), Some(1));
    table.register(jid.duplicate(), 2);
    assert_eq!(table.lookup(&jid), Some(2));
}

#[test]
fn unregister_removes_the_binding() {
    let mut table = RouterTable::new();
    let jid = Jid::parse_text("user@localhost/resource").unwrap();
    let other = Jid::parse_text("other@localhost/resource").unwrap();
    table.register(jid.duplicate(), 1);
    table.register(other.duplicate(), 2);
    table.unregister(&jid);
    assert_eq!(table.lookup(&jid), None);
    assert_eq!(table.lookup(&other), Some(2));
}
