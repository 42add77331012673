//! The inbound engine: feature advertisement, STARTTLS, the SASL flow
//! through elements, resource binding, reset, and the error path.

use base64::prelude::BASE64_STANDARD;
use base64::Engine;
use confidante::engine::{
    ConnectionType, EngineAction, InboundStream, InboundStreamSettings, StreamFeatures,
};
use confidante::jid::Jid;
use confidante::sasl::SaslAction;
use confidante::scram::{hash, hmac, pbkdf2, xor_vec, HashAlg, StoredPasswordScram};
use confidante::xml::parser::{Frame, ParserEvent};
use confidante::xml::writer::StreamWriter;
use confidante::xml::Element;
use confidante::xmpp::stream::XmppStream;
use confidante::xmpp::stream_header::StreamHeader;

fn settings() -> InboundStreamSettings {
    InboundStreamSettings {
        connection_type: ConnectionType::Client,
        domain: Jid::parse_text("localhost").unwrap(),
        tls_required: false,
    }
}

fn engine(starttls: bool, secure: bool) -> InboundStream {
    InboundStream::new(XmppStream::new(starttls, secure, false), settings())
}

fn receive_header(e: &mut InboundStream) {
    e.receive_stream_header(StreamHeader {
        from: None,
        to: Some(Jid::parse_text("localhost").unwrap()),
        id: None,
        language: None,
    });
}

/// The negotiable set before TLS: STARTTLS and authentication.
#[test]
fn features_before_tls() {
    let mut e = engine(true, false);
    receive_header(&mut e);
    let fs = e.negotiable_features();
    assert_eq!(fs.len(), 2);
    assert!(matches!(fs[0], StreamFeatures::Tls));
    assert!(matches!(fs[1], StreamFeatures::Authentication));
}

/// With TLS required, authentication is withheld until the upgrade.
#[test]
fn tls_required_withholds_authentication() {
    let mut e = InboundStream::new(
        XmppStream::new(true, false, false),
        InboundStreamSettings {
            connection_type: ConnectionType::Client,
            domain: Jid::parse_text("localhost").unwrap(),
            tls_required: true,
        },
    );
    receive_header(&mut e);
    let fs = e.negotiable_features();
    assert_eq!(fs.len(), 1);
    assert!(matches!(fs[0], StreamFeatures::Tls));
    e.on_tls_upgraded(false, true, false).unwrap();
    let fs = e.negotiable_features();
    assert_eq!(fs.len(), 1);
    assert!(matches!(fs[0], StreamFeatures::Authentication));
}

/// Binding becomes negotiable only for authenticated clients.
#[test]
fn binding_needs_authentication() {
    let mut e = engine(false, true);
    receive_header(&mut e);
    let fs = e.negotiable_features();
    assert_eq!(fs.len(), 1);
    assert!(matches!(fs[0], StreamFeatures::Authentication));
    e.complete_auth(Jid::parse_text("user@localhost").unwrap());
    let fs = e.negotiable_features();
    assert_eq!(fs.len(), 1);
    assert!(matches!(fs[0], StreamFeatures::ResourceBinding));
}

/// The advertisement before TLS lists the plain SCRAM pair only.
#[test]
fn advertisement_without_tls_has_no_plus() {
    let mut e = engine(true, false);
    receive_header(&mut e);
    let features = e.advertise_features();
    let mut w = StreamWriter::new();
    let header = w
        .write_stream_header(
            &StreamHeader {
                from: Some(Jid::parse_text("localhost").unwrap()),
                to: None,
                id: None,
                language: None,
            },
            true,
        )
        .unwrap();
    assert!(header.contains("<stream:stream from=\"localhost\""));
    let out = w.write_xml_element(&features).unwrap();
    assert!(out.starts_with("<stream:features>"));
    assert!(out.contains("<mechanism>SCRAM-SHA-1</mechanism>"));
    assert!(out.contains("<mechanism>SCRAM-SHA-256</mechanism>"));
    assert!(!out.contains("PLUS"));
    assert!(!out.contains("PLAIN"));
    assert!(!out.contains("EXTERNAL"));
}

/// After STARTTLS the advertisement adds the channel-binding variants and
/// PLAIN.
#[test]
fn advertisement_after_tls_adds_plus() {
    let mut e = engine(true, false);
    receive_header(&mut e);
    let el = starttls_element();
    match e.process_element(el) {
        EngineAction::Proceed(p) => {
            let mut w = StreamWriter::new();
            assert_eq!(
                w.write_xml_element(&p).unwrap(),
                "<proceed xmlns=\"urn:ietf:params:xml:ns:xmpp-tls\"/>"
            );
        }
        _ => panic!("expected the proceed"),
    }
    e.on_tls_upgraded(false, true, false).unwrap();
    receive_header(&mut e);
    let features = e.advertise_features();
    let mut w = StreamWriter::new();
    let _ = w
        .write_stream_header(
            &StreamHeader {
                from: Some(Jid::parse_text("localhost").unwrap()),
                to: None,
                id: None,
                language: None,
            },
            false,
        )
        .unwrap();
    let out = w.write_xml_element(&features).unwrap();
    assert!(out.contains("SCRAM-SHA-1-PLUS"));
    assert!(out.contains("SCRAM-SHA-256-PLUS"));
    assert!(out.contains("<mechanism>PLAIN</mechanism>"));
    assert!(!out.contains("EXTERNAL"));
}

fn starttls_element() -> Element {
    let mut el = Element::new("starttls", Some("urn:ietf:params:xml:ns:xmpp-tls"));
    el.set_attribute("xmlns", None, "urn:ietf:params:xml:ns:xmpp-tls");
    el
}

fn auth_element(mechanism: &str, payload: &str) -> Element {
    let mut el = Element::new("auth", Some("urn:ietf:params:xml:ns:xmpp-sasl"));
    el.set_attribute("xmlns", None, "urn:ietf:params:xml:ns:xmpp-sasl");
    el.set_attribute("mechanism", None, mechanism);
    if !payload.is_empty() {
        el.add_text(&BASE64_STANDARD.encode(payload.as_bytes()));
    }
    el
}

fn response_element(payload: &str) -> Element {
    let mut el = Element::new("response", Some("urn:ietf:params:xml:ns:xmpp-sasl"));
    el.set_attribute("xmlns", None, "urn:ietf:params:xml:ns:xmpp-sasl");
    el.add_text(&BASE64_STANDARD.encode(payload.as_bytes()));
    el
}

fn serialize(el: &Element) -> String {
    let mut w = StreamWriter::new();
    w.write_xml_element(el).unwrap()
}

fn client_proof(alg: HashAlg, pw: &Vec<u8>, salt: &Vec<u8>, auth_msg: &str) -> Vec<u8> {
    let salted = pbkdf2(alg, pw, salt, 4096);
    let ck = hmac(alg, &salted, &b"Client Key".to_vec());
    let stored = hash(alg, &ck);
    let sig = hmac(alg, &stored, &auth_msg.as_bytes().to_vec());
    xor_vec(&ck, &sig)
}

/// The whole login: auth, store lookup, challenge, response, success,
/// reset, then binding with a requested resource.
#[test]
fn scram_login_then_bind() {
    let salt = b"0123456789abcdef".to_vec();
    let password = b"pencil".to_vec();
    let entry = StoredPasswordScram::derive_with_salt(HashAlg::Sha1, &password, &salt);

    let mut e = engine(false, false);
    receive_header(&mut e);

    // <auth mechanism="SCRAM-SHA-1">…client-first…</auth>
    let action = e.process_element(auth_element("SCRAM-SHA-1", "n,,n=user,r=clientnonce"));
    let authid = match action {
        EngineAction::Sasl(SaslAction::Lookup(authid, HashAlg::Sha1)) => authid,
        _ => panic!("expected the store lookup"),
    };
    assert_eq!(authid, "user");

    // The store answers; the server sends its challenge.
    let challenge_payload = match e.resume_sasl(Some(entry)) {
        EngineAction::Sasl(SaslAction::Challenge(c)) => {
            let b64 = c.text();
            String::from_utf8(BASE64_STANDARD.decode(b64.as_str()).unwrap()).unwrap()
        }
        _ => panic!("expected the challenge"),
    };
    assert!(challenge_payload.starts_with("r=clientnonce"));
    assert!(challenge_payload.ends_with(",i=4096"));

    // The client answers with its proof.
    let full_nonce =
        &challenge_payload[2..challenge_payload.find(",s=").unwrap()];
    let without_proof = format!("c=biws,r={}", full_nonce);
    let auth_msg = format!(
        "n=user,r=clientnonce,{},{}",
        challenge_payload, without_proof
    );
    let proof = client_proof(HashAlg::Sha1, &password, &salt, auth_msg.as_str());
    let client_final = format!(
        "{},p={}",
        without_proof,
        BASE64_STANDARD.encode(proof.as_slice())
    );
    let jid = match e.process_element(response_element(client_final.as_str())) {
        EngineAction::Sasl(SaslAction::Success(success, jid)) => {
            assert!(serialize(&success).starts_with("<success"));
            jid
        }
        _ => panic!("expected the success"),
    };
    assert_eq!(jid.as_text(), "user@localhost");
    e.complete_auth(jid);

    // Headers are re-exchanged; binding is now the one feature.
    receive_header(&mut e);
    let fs = e.negotiable_features();
    assert_eq!(fs.len(), 1);
    assert!(matches!(fs[0], StreamFeatures::ResourceBinding));

    // <iq type="set" id="b1"><bind><resource>mobile</resource></bind></iq>
    let mut iq = Element::new("iq", Some("jabber:client"));
    iq.set_attribute("id", None, "b1");
    iq.set_attribute("type", None, "set");
    iq.with_child("bind", Some("urn:ietf:params:xml:ns:xmpp-bind"), |mut b| {
        b.set_attribute("xmlns", None, "urn:ietf:params:xml:ns:xmpp-bind");
        b.with_child(
            "resource",
            Some("urn:ietf:params:xml:ns:xmpp-bind"),
            |mut r| {
                r.add_text("mobile");
                r
            },
        );
        b
    });
    match e.process_element(iq) {
        EngineAction::BindResult(reply, bound) => {
            assert_eq!(bound.as_text(), "user@localhost/mobile");
            assert_eq!(
                serialize(&reply),
                "<iq id=\"b1\" type=\"result\"><bind xmlns=\"urn:ietf:params:xml:ns:xmpp-bind\"><jid>user@localhost/mobile</jid></bind></iq>"
            );
        }
        _ => panic!("expected the bind result"),
    }
}

/// A bind request without a resource receives a server-assigned one.
#[test]
fn bind_without_resource_gets_one_assigned() {
    let mut e = engine(false, false);
    receive_header(&mut e);
    e.complete_auth(Jid::parse_text("user@localhost").unwrap());
    receive_header(&mut e);
    let mut iq = Element::new("iq", Some("jabber:client"));
    iq.set_attribute("id", None, "b2");
    iq.set_attribute("type", None, "set");
    iq.with_child("bind", Some("urn:ietf:params:xml:ns:xmpp-bind"), |mut b| {
        b.set_attribute("xmlns", None, "urn:ietf:params:xml:ns:xmpp-bind");
        b
    });
    match e.process_element(iq) {
        EngineAction::BindResult(_, bound) => {
            let text = bound.as_text();
            let resource = text.rsplit('/').next().unwrap();
            assert_eq!(resource.len(), 36);
            assert!(resource
                .chars()
                .all(|c| c == '-' || c.is_ascii_hexdigit()));
        }
        _ => panic!("expected the bind result"),
    }
}

/// An empty auth body is an empty payload: the mechanism rejects it as
/// not authorized, not as an encoding error.
#[test]
fn empty_auth_body_is_an_empty_payload() {
    let mut e = engine(false, false);
    receive_header(&mut e);
    match e.process_element(auth_element("SCRAM-SHA-1", "")) {
        EngineAction::Sasl(SaslAction::Failure(f)) => {
            let out = serialize(&f);
            assert!(out.contains("not-authorized"));
            assert!(!out.contains("incorrect-encoding"));
        }
        _ => panic!("expected the failure"),
    }
}

/// An unrecognized mechanism name is refused as an invalid mechanism.
#[test]
fn unknown_mechanism_is_refused() {
    let mut e = engine(false, false);
    receive_header(&mut e);
    match e.process_element(auth_element("NO-SUCH", "")) {
        EngineAction::Sasl(SaslAction::Failure(f)) => {
            assert!(serialize(&f).contains("invalid-mechanism"));
        }
        _ => panic!("expected the failure"),
    }
}

/// A wrong proof draws a not-authorized failure; the abort that follows
/// draws the aborted failure.
#[test]
fn bad_proof_then_abort_fails_the_exchange() {
    let salt = b"0123456789abcdef".to_vec();
    let entry = StoredPasswordScram::derive_with_salt(HashAlg::Sha1, &b"pencil".to_vec(), &salt);
    let mut e = engine(false, false);
    receive_header(&mut e);
    let _ = e.process_element(auth_element("SCRAM-SHA-1", "n,,n=user,r=clientnonce"));
    let _ = e.resume_sasl(Some(entry));
    match e.process_element(response_element("c=biws,r=clientnonce,p=AAAA")) {
        EngineAction::Sasl(SaslAction::Failure(f)) => {
            assert!(serialize(&f).contains("not-authorized"));
        }
        _ => panic!("expected the not-authorized failure"),
    }
    let mut abort = Element::new("abort", Some("urn:ietf:params:xml:ns:xmpp-sasl"));
    abort.set_attribute("xmlns", None, "urn:ietf:params:xml:ns:xmpp-sasl");
    match e.process_element(abort) {
        EngineAction::Sasl(SaslAction::Aborted(f)) => {
            assert!(serialize(&f).contains("<aborted"));
        }
        _ => panic!("expected the aborted failure"),
    }
}

/// The third consecutive failure tears the negotiation down.
#[test]
fn three_failures_are_fatal() {
    let salt = b"0123456789abcdef".to_vec();
    let entry = StoredPasswordScram::derive_with_salt(HashAlg::Sha1, &b"pencil".to_vec(), &salt);
    let mut e = engine(false, false);
    receive_header(&mut e);
    let _ = e.process_element(auth_element("SCRAM-SHA-1", "n,,n=user,r=clientnonce"));
    let _ = e.resume_sasl(Some(entry));
    for _ in 0..2 {
        match e.process_element(response_element("c=biws,r=clientnonce,p=AAAA")) {
            EngineAction::Sasl(SaslAction::Failure(_)) => {}
            _ => panic!("expected a retryable failure"),
        }
    }
    match e.process_element(response_element("c=biws,r=clientnonce,p=AAAA")) {
        EngineAction::Sasl(SaslAction::Fatal) => {}
        _ => panic!("expected the fatal teardown"),
    }
}

/// The channel-binding variants are advertised over TLS yet refused in
/// negotiation: their binding token lives with the TLS session outside.
#[test]
fn plus_variant_is_refused() {
    let mut e = engine(false, true);
    receive_header(&mut e);
    match e.process_element(auth_element("SCRAM-SHA-1-PLUS", "n,,n=user,r=c")) {
        EngineAction::Sasl(SaslAction::Failure(f)) => {
            assert!(serialize(&f).contains("invalid-mechanism"));
        }
        _ => panic!("expected the failure"),
    }
}

/// A frame matching no negotiable feature is a stanza for the router.
#[test]
fn unmatched_element_is_a_stanza() {
    let mut e = engine(false, false);
    receive_header(&mut e);
    let mut msg = Element::new("message", Some("jabber:client"));
    msg.set_attribute("to", None, "juliet@capulet.example");
    match e.process_element(msg) {
        EngineAction::Stanza(s) => {
            assert!(s.validate("message", Some("jabber:client")));
        }
        _ => panic!("expected the stanza"),
    }
}

/// The fatal error element and the stream close, as written on teardown.
#[test]
fn stream_error_then_close() {
    let mut w = StreamWriter::new();
    let _ = w
        .write_stream_header(
            &StreamHeader {
                from: Some(Jid::parse_text("localhost").unwrap()),
                to: None,
                id: None,
                language: None,
            },
            true,
        )
        .unwrap();
    let err = InboundStream::stream_error_element();
    let out = w.write_xml_element(&err).unwrap();
    assert_eq!(
        out,
        "<stream:error><internal-server-error xmlns=\"urn:ietf:params:xml:ns:xmpp-streams\"/></stream:error>"
    );
    assert_eq!(w.write_stream_close(), "</stream:stream>");
}

/// When the first frame is invalid, the fatal response opens a stream of
/// its own, then the one error, then the close.
#[test]
fn fatal_response_before_any_header() {
    let mut e = engine(false, false);
    let out = e.fatal_close(true).unwrap();
    assert!(out.starts_with("<?xml version='1.0'?><stream:stream from=\"localhost\""));
    assert!(out.contains(
        "<stream:error><internal-server-error xmlns=\"urn:ietf:params:xml:ns:xmpp-streams\"/></stream:error>"
    ));
    assert!(out.ends_with("</stream:stream>"));
}

/// Mid-stream, the fatal response reuses the open stream: one error,
/// then the close.
#[test]
fn fatal_response_mid_stream() {
    let mut e = engine(false, false);
    receive_header(&mut e);
    let header = e.outbound_header();
    let _ = e.stream.writer().write_stream_header(&header, true).unwrap();
    let out = e.fatal_close(false).unwrap();
    assert_eq!(
        out,
        "<stream:error><internal-server-error xmlns=\"urn:ietf:params:xml:ns:xmpp-streams\"/></stream:error></stream:stream>"
    );
}

/// Without an open stream and without sending a header, the fatal
/// response is refused rather than emitted unresolvable.
#[test]
fn fatal_response_needs_a_stream() {
    let mut e = engine(false, false);
    assert!(e.fatal_close(false).is_err());
}

/// A non-auth element handed to the SASL driver itself draws the
/// policy-violation failure.
#[test]
fn foreign_element_draws_policy_violation() {
    let mut driver = confidante::sasl::SaslNegotiator::new("localhost".to_string());
    let mut el = Element::new("iq", Some("jabber:client"));
    el.set_attribute("type", None, "get");
    match driver.handle_auth(&el) {
        SaslAction::Failure(f) => {
            assert!(serialize(&f).contains("policy-violation"));
        }
        _ => panic!("expected the policy-violation failure"),
    }
}

/// A reset discards everything fed before it: the new parser awaits a
/// fresh stream header.
#[test]
fn reset_discards_buffered_input() {
    let mut stream = XmppStream::new(false, false, false);
    stream.reader().feed(
        "<stream:stream xmlns=\"jabber:client\" xmlns:stream=\"http://etherx.jabber.org/streams\" to=\"localhost\">",
    );
    match stream.reader().next_frame() {
        ParserEvent::Item(Frame::StreamStart(_)) => {}
        _ => panic!("expected the stream header"),
    }
    stream.reset();
    stream.reader().feed("<a xmlns=\"jabber:client\"/>");
    match stream.reader().next_frame() {
        ParserEvent::Failed => {}
        _ => panic!("a fragment without a new header must fail"),
    }
}
