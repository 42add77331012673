//! Jabber identifiers: parsing, derivations, textual form.

use confidante::jid::Jid;

#[test]
fn jid_fail_on_empty_string() {
    let result = Jid::parse_text("");
    assert!(matches!(result, Err(_)));
}

#[test]
fn full_jid_parses_into_components() {
    let jid = Jid::parse_text("user@localhost/resource").unwrap();
    assert_eq!(jid.as_text(), "user@localhost/resource");
    assert_eq!(jid.bare().as_text(), "user@localhost");
}

#[test]
fn bare_jid_has_no_resource() {
    let jid = Jid::parse_text("localhost").unwrap();
    assert_eq!(jid.as_text(), "localhost");
    assert_eq!(jid.bare().as_text(), "localhost");
}

#[test]
fn bind_replaces_the_resource() {
    let jid = Jid::new(Some("user".to_string()), "localhost".to_string(), None);
    let bound = jid.bind("mobile".to_string());
    assert_eq!(bound.as_text(), "user@localhost/mobile");
    let rebound = bound.bind("desk".to_string());
    assert_eq!(rebound.as_text(), "user@localhost/desk");
}

#[test]
fn empty_component_is_rejected() {
    assert!(Jid::parse_text("@localhost").is_err());
    assert!(Jid::parse_text("user@").is_err());
    assert!(Jid::parse_text("user@localhost/").is_err());
}

#[test]
fn equality_is_per_component() {
    let a = Jid::parse_text("user@localhost/resource").unwrap();
    let b = Jid::parse_text("user@localhost/resource").unwrap();
    let c = Jid::parse_text("user@localhost/other").unwrap();
    assert!(a == b);
    assert!(a != c);
}
