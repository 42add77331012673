//! The stream wrapper: both halves stay available across new, reset and
//! the recorded TLS upgrade.

use confidante::xmpp::stream::XmppStream;

#[test]
fn reader_is_available_after_new() {
    let mut stream = XmppStream::new(true, false, false);
    let _ = stream.reader();
}

#[test]
fn writer_is_available_after_new() {
    let mut stream = XmppStream::new(true, false, false);
    let _ = stream.writer();
}

#[test]
fn reader_is_available_after_reset() {
    let mut stream = XmppStream::new(true, false, false);
    stream.reset();
    let _ = stream.reader();
}

#[test]
fn writer_is_available_after_reset() {
    let mut stream = XmppStream::new(true, false, false);
    stream.reset();
    let _ = stream.writer();
}

#[test]
fn upgrade_works() {
    let mut stream = XmppStream::new(true, false, false);
    assert!(!stream.is_secure());
    stream.mark_upgraded(false, true, false).unwrap();
    assert!(stream.is_secure());
}

/// Upgrading a channel that is already secure fails and changes nothing.
#[test]
fn upgrade_of_a_secure_channel_fails() {
    let mut stream = XmppStream::new(false, true, false);
    assert!(stream.mark_upgraded(false, true, false).is_err());
    assert!(stream.is_secure());
}

#[test]
fn reader_is_available_after_upgrade() {
    let mut stream = XmppStream::new(true, false, false);
    stream.mark_upgraded(false, true, false).unwrap();
    let _ = stream.reader();
}

#[test]
fn writer_is_available_after_upgrade() {
    let mut stream = XmppStream::new(true, false, false);
    stream.mark_upgraded(false, true, false).unwrap();
    let _ = stream.writer();
}
