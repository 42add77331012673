//! SASL negotiation: the mechanisms, their availability, and the driver
//! that turns `<auth>`, `<response>` and `<abort>` elements into
//! challenges, success or failure.

use vstd::prelude::*;

use crate::crypto::{b64_decode, b64_decode_of, b64_encode, b64_of, utf8_to_string};
use crate::jid::Jid;
use crate::sasl::scram_server::{
    auth_message_of, client_final_without_proof, client_first_bare_of, client_first_spec,
    server_accepts, server_final_of, server_first_of, ScramFinal, ScramPhase, ScramServer,
};
use crate::scram::{entry_wf, HashAlg, StoredPasswordScram};
use crate::xml::{attr_lookup, text_of, AttrModel, Element, ElemModel, NodeModel};
use vstd::utf8::{decode_utf8, encode_utf8, valid_utf8};

pub mod scram_server;

verus! {

/// Marker for identities validated by the SASL layer.
pub struct SaslValidation;

/// Why an authentication attempt was refused.
pub enum AuthError {
    AuthzBad,
    PasswordIncorrect,
    NoSuchUser,
}

/// The mechanisms the driver recognizes.
#[derive(Clone, Copy, PartialEq, Eq, Structural)]
pub enum Mechanism {
    External,
    Plain,
    ScramSha1,
    ScramSha256,
    ScramSha1Plus,
    ScramSha256Plus,
}

/// The wire name of a mechanism.
pub open spec fn mechanism_text(m: Mechanism) -> Seq<char> {
    match m {
        Mechanism::External => "EXTERNAL"@,
        Mechanism::Plain => "PLAIN"@,
        Mechanism::ScramSha1 => "SCRAM-SHA-1"@,
        Mechanism::ScramSha256 => "SCRAM-SHA-256"@,
        Mechanism::ScramSha1Plus => "SCRAM-SHA-1-PLUS"@,
        Mechanism::ScramSha256Plus => "SCRAM-SHA-256-PLUS"@,
    }
}

/// Whether a mechanism may be offered on a channel: EXTERNAL needs an
/// authenticated secure channel, PLAIN a secure one, the SCRAM pair is
/// always available, their channel-binding variants need a secure
/// channel.
pub open spec fn mechanism_available(m: Mechanism, secure: bool, authenticated: bool) -> bool {
    match m {
        Mechanism::External => secure && authenticated,
        Mechanism::Plain => secure,
        Mechanism::ScramSha1 => true,
        Mechanism::ScramSha256 => true,
        Mechanism::ScramSha1Plus => secure,
        Mechanism::ScramSha256Plus => secure,
    }
}

impl Mechanism {
    /// Parses a wire name.
    pub fn from_text(s: &str) -> (r: Option<Mechanism>)
        ensures
            match r {
                Some(m) => mechanism_text(m) == s@,
                None => forall|m: Mechanism| mechanism_text(m) != s@,
            },
    {
        if crate::xml::str_eq(s, "EXTERNAL") {
            Some(Mechanism::External)
        } else if crate::xml::str_eq(s, "PLAIN") {
            Some(Mechanism::Plain)
        } else if crate::xml::str_eq(s, "SCRAM-SHA-1") {
            Some(Mechanism::ScramSha1)
        } else if crate::xml::str_eq(s, "SCRAM-SHA-256") {
            Some(Mechanism::ScramSha256)
        } else if crate::xml::str_eq(s, "SCRAM-SHA-1-PLUS") {
            Some(Mechanism::ScramSha1Plus)
        } else if crate::xml::str_eq(s, "SCRAM-SHA-256-PLUS") {
            Some(Mechanism::ScramSha256Plus)
        } else {
            proof {
                assert forall|m: Mechanism| mechanism_text(m) != s@ by {
                    match m {
                        Mechanism::External => {},
                        Mechanism::Plain => {},
                        Mechanism::ScramSha1 => {},
                        Mechanism::ScramSha256 => {},
                        Mechanism::ScramSha1Plus => {},
                        Mechanism::ScramSha256Plus => {},
                    }
                }
            }
            None
        }
    }

    /// Writes the wire name.
    pub fn as_text(&self) -> (r: &'static str)
        ensures
            r@ == mechanism_text(*self),
    {
        match self {
            Mechanism::External => "EXTERNAL",
            Mechanism::Plain => "PLAIN",
            Mechanism::ScramSha1 => "SCRAM-SHA-1",
            Mechanism::ScramSha256 => "SCRAM-SHA-256",
            Mechanism::ScramSha1Plus => "SCRAM-SHA-1-PLUS",
            Mechanism::ScramSha256Plus => "SCRAM-SHA-256-PLUS",
        }
    }

    /// Whether the mechanism may be offered on the channel.
    pub fn available(&self, secure: bool, authenticated: bool) -> (r: bool)
        ensures
            r == mechanism_available(*self, secure, authenticated),
    {
        match self {
            Mechanism::External => secure && authenticated,
            Mechanism::Plain => secure,
            Mechanism::ScramSha1 => true,
            Mechanism::ScramSha256 => true,
            Mechanism::ScramSha1Plus => secure,
            Mechanism::ScramSha256Plus => secure,
        }
    }
}

/// The fixed order in which mechanisms are advertised.
pub open spec fn mechanism_order() -> Seq<Mechanism> {
    seq![
        Mechanism::External,
        Mechanism::ScramSha1Plus,
        Mechanism::ScramSha256Plus,
        Mechanism::ScramSha1,
        Mechanism::ScramSha256,
        Mechanism::Plain,
    ]
}

/// A `<mechanism>` child: the wire name as text.
pub open spec fn mechanism_elem_model(m: Mechanism) -> ElemModel {
    ElemModel {
        name: "mechanism"@,
        ns: Some("urn:ietf:params:xml:ns:xmpp-sasl"@),
        attrs: Seq::empty(),
        children: seq![NodeModel::Text(mechanism_text(m))],
    }
}

/// The child advertised for one mechanism: its element when available,
/// nothing otherwise.
pub open spec fn advertised_child(
    m: Mechanism,
    secure: bool,
    authenticated: bool,
) -> Seq<NodeModel> {
    if mechanism_available(m, secure, authenticated) {
        seq![NodeModel::Elem(mechanism_elem_model(m))]
    } else {
        Seq::empty()
    }
}

/// The children of the advertisement: one `<mechanism>` per available
/// mechanism, in the fixed order.
pub open spec fn advertised_children(
    order: Seq<Mechanism>,
    secure: bool,
    authenticated: bool,
) -> Seq<NodeModel>
    decreases order.len(),
{
    if order.len() == 0 {
        Seq::empty()
    } else {
        advertised_child(order[0], secure, authenticated) + advertised_children(
            order.drop_first(),
            secure,
            authenticated,
        )
    }
}

/// The `<mechanisms>` advertisement: the set offered is a function of the
/// channel's two flags alone.
pub open spec fn mechanisms_elem_model(secure: bool, authenticated: bool) -> ElemModel {
    ElemModel {
        name: "mechanisms"@,
        ns: Some("urn:ietf:params:xml:ns:xmpp-sasl"@),
        attrs: seq![
            AttrModel {
                name: "xmlns"@,
                ns: None,
                value: "urn:ietf:params:xml:ns:xmpp-sasl"@,
            },
        ],
        children: advertised_children(mechanism_order(), secure, authenticated),
    }
}

fn mechanism_element(m: Mechanism) -> (r: Element)
    ensures
        r@ == mechanism_elem_model(m),
{
    let mut e = Element::new("mechanism", Some(crate::xml::namespaces::ns_xmpp_sasl()));
    e.add_text(m.as_text());
    proof {
        assert(e@.children =~= seq![NodeModel::Text(mechanism_text(m))]);
        assert(e@ =~~= mechanism_elem_model(m));
    }
    e
}

/// Whether the element is the SASL `<auth>` element.
pub open spec fn auth_element_ok(el: ElemModel) -> bool {
    el.name == "auth"@ && el.ns == Some("urn:ietf:params:xml:ns:xmpp-sasl"@)
}

/// Whether the element is the SASL `<response>` element.
pub open spec fn response_element_ok(el: ElemModel) -> bool {
    el.name == "response"@ && el.ns == Some("urn:ietf:params:xml:ns:xmpp-sasl"@)
}

/// Whether the element is the SASL `<abort>` element.
pub open spec fn abort_element_ok(el: ElemModel) -> bool {
    el.name == "abort"@ && el.ns == Some("urn:ietf:params:xml:ns:xmpp-sasl"@)
}

/// The SCRAM family the element's mechanism attribute names, if any.
pub open spec fn auth_mechanism_alg(el: ElemModel) -> Option<HashAlg> {
    match attr_lookup(el.attrs, "mechanism"@, None) {
        Some(m) => if m == mechanism_text(Mechanism::ScramSha1) {
            Some(HashAlg::Sha1)
        } else if m == mechanism_text(Mechanism::ScramSha256) {
            Some(HashAlg::Sha256)
        } else {
            None
        },
        None => None,
    }
}

/// The element's text decoded into the mechanism payload: base64, then
/// UTF-8. An empty body decodes to the empty payload.
pub open spec fn decoded_payload(el: ElemModel) -> Option<Seq<char>> {
    match b64_decode_of(text_of(el)) {
        Some(bytes) => if valid_utf8(bytes) {
            Some(decode_utf8(bytes))
        } else {
            None
        },
        None => None,
    }
}

/// What the driver decides on an `<auth>` element: a failure condition,
/// or the start of an exchange for a user and family.
pub enum AuthDecision {
    Refused(Seq<char>),
    Start(Seq<char>, HashAlg),
}

/// The decision, as a function of the element alone: a foreign element is
/// a policy violation, an unknown or non-SCRAM mechanism is invalid, an
/// undecodable payload is an encoding error, a malformed client-first is
/// not authorized; otherwise the exchange starts.
pub open spec fn auth_decision(el: ElemModel) -> AuthDecision {
    if !auth_element_ok(el) {
        AuthDecision::Refused("policy-violation"@)
    } else {
        match auth_mechanism_alg(el) {
            None => AuthDecision::Refused("invalid-mechanism"@),
            Some(alg) => match decoded_payload(el) {
                None => AuthDecision::Refused("incorrect-encoding"@),
                Some(p) => match client_first_spec(p) {
                    None => AuthDecision::Refused("not-authorized"@),
                    Some((gs2, authid, cnonce)) => AuthDecision::Start(authid, alg),
                },
            },
        }
    }
}

/// The six mechanism names differ pairwise; their lengths already do.
proof fn lemma_mechanism_texts_distinct()
    ensures
        forall|a: Mechanism, b: Mechanism|
            mechanism_text(a) == mechanism_text(b) ==> a == b,
{
    reveal_strlit("EXTERNAL");
    reveal_strlit("PLAIN");
    reveal_strlit("SCRAM-SHA-1");
    reveal_strlit("SCRAM-SHA-256");
    reveal_strlit("SCRAM-SHA-1-PLUS");
    reveal_strlit("SCRAM-SHA-256-PLUS");
    assert("EXTERNAL"@.len() == 8);
    assert("PLAIN"@.len() == 5);
    assert("SCRAM-SHA-1"@.len() == 11);
    assert("SCRAM-SHA-256"@.len() == 13);
    assert("SCRAM-SHA-1-PLUS"@.len() == 16);
    assert("SCRAM-SHA-256-PLUS"@.len() == 18);
    assert forall|a: Mechanism, b: Mechanism|
        mechanism_text(a) == mechanism_text(b) implies a == b by {
        match a {
            Mechanism::External => {},
            Mechanism::Plain => {},
            Mechanism::ScramSha1 => {},
            Mechanism::ScramSha256 => {},
            Mechanism::ScramSha1Plus => {},
            Mechanism::ScramSha256Plus => {},
        }
        match b {
            Mechanism::External => {},
            Mechanism::Plain => {},
            Mechanism::ScramSha1 => {},
            Mechanism::ScramSha256 => {},
            Mechanism::ScramSha1Plus => {},
            Mechanism::ScramSha256Plus => {},
        }
    }
}

/// Whether the driver is ready to issue the challenge: a lookup is
/// pending and the entry, if found, belongs to the running family and is
/// well-formed.
pub open spec fn resume_ready(d: SaslNegotiator, entry: Option<StoredPasswordScram>) -> bool {
    &&& d.scram matches Some(s)
    &&& s.phase is AwaitLookup
    &&& (entry matches Some(e) ==> e@.alg == s.alg && entry_wf(e@))
}

/// Whether the driver accepts this element as the successful final
/// response of its running exchange.
pub open spec fn response_accepted(d: SaslNegotiator, el: ElemModel) -> bool {
    &&& response_element_ok(el)
    &&& d.scram matches Some(s)
    &&& decoded_payload(el) matches Some(p)
    &&& server_accepts(s, p)
}

/// The SASL driver: owns the running mechanism exchange and counts
/// consecutive failures.
pub struct SaslNegotiator {
    pub domain: String,
    pub scram: Option<ScramServer>,
    pub failures: u8,
}

/// What the driver asks its caller to do next.
pub enum SaslAction {
    /// Write this `<challenge>` and await the next `<response>`.
    Challenge(Element),
    /// Look this user up in the credential store and resume.
    Lookup(String, HashAlg),
    /// Write this `<success>`; the peer is the given identity.
    Success(Element, Jid),
    /// Write this `<failure>`; the peer may retry.
    Failure(Element),
    /// Write this `<failure>` and tear the negotiation down.
    Aborted(Element),
    /// Protocol violation or too many failures: tear the stream down.
    Fatal,
}

/// A `<failure>` with one condition child.
pub open spec fn failure_elem_model(condition: Seq<char>) -> ElemModel {
    ElemModel {
        name: "failure"@,
        ns: Some("urn:ietf:params:xml:ns:xmpp-sasl"@),
        attrs: seq![
            AttrModel {
                name: "xmlns"@,
                ns: None,
                value: "urn:ietf:params:xml:ns:xmpp-sasl"@,
            },
        ],
        children: seq![
            NodeModel::Elem(
                ElemModel {
                    name: condition,
                    ns: Some("urn:ietf:params:xml:ns:xmpp-sasl"@),
                    attrs: Seq::empty(),
                    children: Seq::empty(),
                },
            ),
        ],
    }
}

/// A `<challenge>` carrying base64 text.
pub open spec fn challenge_elem_model(b64: Seq<char>) -> ElemModel {
    ElemModel {
        name: "challenge"@,
        ns: Some("urn:ietf:params:xml:ns:xmpp-sasl"@),
        attrs: seq![
            AttrModel {
                name: "xmlns"@,
                ns: None,
                value: "urn:ietf:params:xml:ns:xmpp-sasl"@,
            },
        ],
        children: seq![NodeModel::Text(b64)],
    }
}

/// A `<success>` carrying base64 text.
pub open spec fn success_elem_model(b64: Seq<char>) -> ElemModel {
    ElemModel {
        name: "success"@,
        ns: Some("urn:ietf:params:xml:ns:xmpp-sasl"@),
        attrs: seq![
            AttrModel {
                name: "xmlns"@,
                ns: None,
                value: "urn:ietf:params:xml:ns:xmpp-sasl"@,
            },
        ],
        children: seq![NodeModel::Text(b64)],
    }
}

fn failure_element(condition: &str) -> (r: Element)
    ensures
        r@ == failure_elem_model(condition@),
{
    let mut e = Element::new("failure", Some(crate::xml::namespaces::ns_xmpp_sasl()));
    e.set_attribute("xmlns", None, crate::xml::namespaces::ns_xmpp_sasl());
    e.add_child(Element::new(condition, Some(crate::xml::namespaces::ns_xmpp_sasl())));
    proof {
        assert(e@ =~~= failure_elem_model(condition@));
    }
    e
}

/// A SASL element of the given name carrying base64 text.
pub open spec fn payload_elem_model(name: Seq<char>, b64: Seq<char>) -> ElemModel {
    ElemModel {
        name,
        ns: Some("urn:ietf:params:xml:ns:xmpp-sasl"@),
        attrs: seq![
            AttrModel {
                name: "xmlns"@,
                ns: None,
                value: "urn:ietf:params:xml:ns:xmpp-sasl"@,
            },
        ],
        children: seq![NodeModel::Text(b64)],
    }
}

fn text_payload_element(name: &str, b64: &str) -> (r: Element)
    ensures
        r@ == payload_elem_model(name@, b64@),
{
    let mut e = Element::new(name, Some(crate::xml::namespaces::ns_xmpp_sasl()));
    e.set_attribute("xmlns", None, crate::xml::namespaces::ns_xmpp_sasl());
    e.add_text(b64);
    proof {
        assert(e@ =~~= payload_elem_model(name@, b64@));
    }
    e
}

impl SaslNegotiator {
    /// Builds the `<mechanisms>` advertisement for the channel's flags.
    /// The negotiable set depends on the two flags and nothing else.
    pub fn advertise_feature(secure: bool, authenticated: bool) -> (r: Element)
        ensures
            r@ == mechanisms_elem_model(secure, authenticated),
    {
        let mut e = Element::new("mechanisms", Some(crate::xml::namespaces::ns_xmpp_sasl()));
        e.set_attribute("xmlns", None, crate::xml::namespaces::ns_xmpp_sasl());
        let ghost order = mechanism_order();
        if Mechanism::External.available(secure, authenticated) {
            e.add_child(mechanism_element(Mechanism::External));
        }
        if Mechanism::ScramSha1Plus.available(secure, authenticated) {
            e.add_child(mechanism_element(Mechanism::ScramSha1Plus));
        }
        if Mechanism::ScramSha256Plus.available(secure, authenticated) {
            e.add_child(mechanism_element(Mechanism::ScramSha256Plus));
        }
        if Mechanism::ScramSha1.available(secure, authenticated) {
            e.add_child(mechanism_element(Mechanism::ScramSha1));
        }
        if Mechanism::ScramSha256.available(secure, authenticated) {
            e.add_child(mechanism_element(Mechanism::ScramSha256));
        }
        if Mechanism::Plain.available(secure, authenticated) {
            e.add_child(mechanism_element(Mechanism::Plain));
        }
        proof {
            let em = Seq::<Mechanism>::empty();
            assert(advertised_children(em, secure, authenticated) == Seq::<NodeModel>::empty());
            let o5 = seq![Mechanism::Plain];
            assert(o5.drop_first() =~= em);
            assert(o5[0] == Mechanism::Plain);
            assert(advertised_children(o5, secure, authenticated) =~~= advertised_child(
                Mechanism::Plain,
                secure,
                authenticated,
            ));
            let o4 = seq![Mechanism::ScramSha256, Mechanism::Plain];
            assert(o4.drop_first() =~= o5);
            assert(o4[0] == Mechanism::ScramSha256);
            assert(advertised_children(o4, secure, authenticated) =~~= advertised_child(
                Mechanism::ScramSha256,
                secure,
                authenticated,
            ) + advertised_children(o5, secure, authenticated));
            let o3 = seq![Mechanism::ScramSha1, Mechanism::ScramSha256, Mechanism::Plain];
            assert(o3.drop_first() =~= o4);
            assert(o3[0] == Mechanism::ScramSha1);
            assert(advertised_children(o3, secure, authenticated) =~~= advertised_child(
                Mechanism::ScramSha1,
                secure,
                authenticated,
            ) + advertised_children(o4, secure, authenticated));
            let o2 = seq![
                Mechanism::ScramSha256Plus,
                Mechanism::ScramSha1,
                Mechanism::ScramSha256,
                Mechanism::Plain,
            ];
            assert(o2.drop_first() =~= o3);
            assert(o2[0] == Mechanism::ScramSha256Plus);
            assert(advertised_children(o2, secure, authenticated) =~~= advertised_child(
                Mechanism::ScramSha256Plus,
                secure,
                authenticated,
            ) + advertised_children(o3, secure, authenticated));
            let o1 = seq![
                Mechanism::ScramSha1Plus,
                Mechanism::ScramSha256Plus,
                Mechanism::ScramSha1,
                Mechanism::ScramSha256,
                Mechanism::Plain,
            ];
            assert(o1.drop_first() =~= o2);
            assert(o1[0] == Mechanism::ScramSha1Plus);
            assert(advertised_children(o1, secure, authenticated) =~~= advertised_child(
                Mechanism::ScramSha1Plus,
                secure,
                authenticated,
            ) + advertised_children(o2, secure, authenticated));
            assert(order.drop_first() =~= o1);
            assert(order[0] == Mechanism::External);
            assert(advertised_children(order, secure, authenticated) =~~= advertised_child(
                Mechanism::External,
                secure,
                authenticated,
            ) + advertised_children(o1, secure, authenticated));
            assert(e@.children =~~= advertised_children(order, secure, authenticated));
            assert(e@ =~~= mechanisms_elem_model(secure, authenticated));
        }
        e
    }

    /// A fresh driver for one stream.
    pub fn new(domain: String) -> (r: SaslNegotiator)
        ensures
            r.domain@ == domain@,
            r.scram is None,
            r.failures == 0,
    {
        SaslNegotiator { domain, scram: None, failures: 0 }
    }

    /// Consumes the `<auth>` element: picks the mechanism, decodes the
    /// initial payload — an empty body is an empty payload, not an error
    /// — and starts the exchange. The outcome is exactly
    /// [`auth_decision`] of the element.
    pub fn handle_auth(&mut self, el: &Element) -> (r: SaslAction)
        ensures
            final(self).domain@ == old(self).domain@,
            final(self).failures == old(self).failures,
            (r is Lookup) == (auth_decision(el@) is Start),
            match r {
                SaslAction::Failure(f) => {
                    &&& auth_decision(el@) matches AuthDecision::Refused(cond)
                    &&& f@ == failure_elem_model(cond)
                    &&& *final(self) == *old(self)
                },
                SaslAction::Lookup(authid, alg) => {
                    &&& auth_decision(el@) matches AuthDecision::Start(a, alg2)
                    &&& authid@ == a
                    &&& alg == alg2
                    &&& decoded_payload(el@) matches Some(p)
                    &&& final(self).scram matches Some(server)
                    &&& server.alg == alg
                    &&& server.domain@ == old(self).domain@
                    &&& server.phase matches ScramPhase::AwaitLookup {
                        authid: a2,
                        cnonce,
                        bare,
                        gs2,
                    }
                    &&& a2@ == a
                    &&& client_first_spec(p) matches Some((g, a3, cn))
                    &&& cnonce@ == cn
                    &&& gs2@ == g
                    &&& bare@ == client_first_bare_of(p)
                },
                _ => false,
            },
    {
        proof {
            lemma_mechanism_texts_distinct();
        }
        if !el.validate("auth", Some(crate::xml::namespaces::ns_xmpp_sasl())) {
            return SaslAction::Failure(failure_element("policy-violation"));
        }
        let alg = match el.attribute("mechanism", None) {
            Some(name) => match Mechanism::from_text(name) {
                Some(Mechanism::ScramSha1) => HashAlg::Sha1,
                Some(Mechanism::ScramSha256) => HashAlg::Sha256,
                _ => {
                    // Recognized non-SCRAM names (EXTERNAL, PLAIN, the
                    // channel-binding variants) are refused like unknown
                    // ones: nothing here can run them.
                    return SaslAction::Failure(failure_element("invalid-mechanism"));
                },
            },
            None => {
                return SaslAction::Failure(failure_element("invalid-mechanism"));
            },
        };
        let text = el.text();
        let payload_bytes = match b64_decode(text.as_str()) {
            Ok(v) => v,
            Err(_) => {
                return SaslAction::Failure(failure_element("incorrect-encoding"));
            },
        };
        let payload = match utf8_to_string(&payload_bytes) {
            Ok(s) => s,
            Err(_) => {
                return SaslAction::Failure(failure_element("incorrect-encoding"));
            },
        };
        let mut server = ScramServer::new(alg, self.domain.clone());
        match server.client_first(payload.as_str()) {
            Ok(authid) => {
                self.scram = Some(server);
                SaslAction::Lookup(authid, alg)
            },
            Err(_) => SaslAction::Failure(failure_element("not-authorized")),
        }
    }

    /// Consumes the store's answer and emits the challenge: exactly when
    /// a lookup was pending and the entry, if found, belongs to the
    /// running family and is well-formed. The challenge carries base64 of
    /// the recorded server-first message.
    pub fn resume(&mut self, entry: Option<StoredPasswordScram>) -> (r: SaslAction)
        ensures
            final(self).domain@ == old(self).domain@,
            final(self).failures == old(self).failures,
            r is Challenge || r is Fatal,
            (r is Challenge) == resume_ready(*old(self), entry),
            match r {
                SaslAction::Challenge(c) => {
                    &&& old(self).scram matches Some(s)
                    &&& s.phase matches ScramPhase::AwaitLookup {
                        authid: a0,
                        cnonce: c0,
                        bare: b0,
                        gs2: g0,
                    }
                    &&& final(self).scram matches Some(s2)
                    &&& s2.alg == s.alg
                    &&& s2.domain@ == s.domain@
                    &&& s2.phase matches ScramPhase::AwaitFinal {
                        authid,
                        full_nonce,
                        server_first,
                        bare,
                        gs2,
                        entry: e2,
                        user_known,
                    }
                    &&& authid@ == a0@
                    &&& bare@ == b0@
                    &&& gs2@ == g0@
                    &&& exists|sn: Seq<char>| full_nonce@ == c0@ + sn
                    &&& server_first@ == server_first_of(full_nonce@, e2@.salt)
                    &&& match entry {
                        Some(e) => user_known && e2@ == e@,
                        None => !user_known,
                    }
                    &&& entry_wf(e2@)
                    &&& c@ == challenge_elem_model(b64_of(encode_utf8(server_first@)))
                },
                SaslAction::Fatal => true,
                _ => false,
            },
    {
        let mut server = match self.scram.take() {
            Some(s) => s,
            None => {
                return SaslAction::Fatal;
            },
        };
        match server.server_first(entry) {
            Ok(challenge) => {
                let cb = challenge.as_str().as_bytes_vec();
                let b64 = b64_encode(&cb);
                let e = text_payload_element("challenge", b64.as_str());
                proof {
                    assert(e@ == challenge_elem_model(b64@));
                }
                self.scram = Some(server);
                SaslAction::Challenge(e)
            },
            Err(_) => SaslAction::Fatal,
        }
    }

    /// Consumes a `<response>` or `<abort>` element. An abort draws the
    /// aborted failure; success comes exactly when the SCRAM server
    /// accepts the decoded payload, carrying base64 of the server-final
    /// message and the authenticated identity; a rejected attempt may be
    /// retried twice, the third consecutive failure tears the stream
    /// down, as does any other element or a missing exchange.
    pub fn handle_response(&mut self, el: &Element) -> (r: SaslAction)
        ensures
            final(self).domain@ == old(self).domain@,
            (r is Success) == response_accepted(*old(self), el@),
            match r {
                SaslAction::Aborted(f) => {
                    &&& abort_element_ok(el@)
                    &&& f@ == failure_elem_model("aborted"@)
                    &&& final(self).scram is None
                },
                SaslAction::Fatal => {
                    &&& !abort_element_ok(el@)
                    &&& (!response_element_ok(el@) || old(self).scram is None || (
                    decoded_payload(el@) matches Some(p) && old(self).scram matches Some(s)
                        && !server_accepts(s, p) && old(self).failures >= 2))
                },
                SaslAction::Failure(f) => {
                    &&& !abort_element_ok(el@)
                    &&& response_element_ok(el@)
                    &&& old(self).scram is Some
                    &&& match decoded_payload(el@) {
                        None => f@ == failure_elem_model("incorrect-encoding"@) && *final(self)
                            == *old(self),
                        Some(p) => {
                            &&& old(self).scram matches Some(s)
                            &&& !server_accepts(s, p)
                            &&& old(self).failures < 2
                            &&& f@ == failure_elem_model("not-authorized"@)
                            &&& final(self).failures == old(self).failures + 1
                            &&& final(self).scram is Some
                        },
                    }
                },
                SaslAction::Success(su, jid) => {
                    &&& old(self).scram matches Some(s)
                    &&& decoded_payload(el@) matches Some(p)
                    &&& s.phase matches ScramPhase::AwaitFinal {
                        authid,
                        full_nonce,
                        server_first,
                        bare,
                        gs2,
                        entry,
                        user_known,
                    }
                    &&& jid@.local == Some(authid@)
                    &&& jid@.domain == s.domain@
                    &&& jid@.resource is None
                    &&& su@ == success_elem_model(
                        b64_of(
                            encode_utf8(
                                server_final_of(
                                    entry@.alg,
                                    entry@.server_key,
                                    auth_message_of(
                                        bare@,
                                        server_first@,
                                        client_final_without_proof(p),
                                    ),
                                ),
                            ),
                        ),
                    )
                },
                _ => false,
            },
    {
        proof {
            reveal_strlit("abort");
            reveal_strlit("response");
            assert("abort"@.len() == 5);
            assert("response"@.len() == 8);
        }
        if el.validate("abort", Some(crate::xml::namespaces::ns_xmpp_sasl())) {
            self.scram = None;
            return SaslAction::Aborted(failure_element("aborted"));
        }
        if !el.validate("response", Some(crate::xml::namespaces::ns_xmpp_sasl())) {
            return SaslAction::Fatal;
        }
        let mut server = match self.scram.take() {
            Some(s) => s,
            None => {
                return SaslAction::Fatal;
            },
        };
        let text = el.text();
        let payload_bytes = match b64_decode(text.as_str()) {
            Ok(v) => v,
            Err(_) => {
                self.scram = Some(server);
                return SaslAction::Failure(failure_element("incorrect-encoding"));
            },
        };
        let payload = match utf8_to_string(&payload_bytes) {
            Ok(s) => s,
            Err(_) => {
                self.scram = Some(server);
                return SaslAction::Failure(failure_element("incorrect-encoding"));
            },
        };
        match server.client_final(payload.as_str()) {
            ScramFinal::Accepted { jid, server_final } => {
                let sb = server_final.as_str().as_bytes_vec();
                let b64 = b64_encode(&sb);
                let e = text_payload_element("success", b64.as_str());
                proof {
                    assert(e@ == success_elem_model(b64@));
                }
                SaslAction::Success(e, jid)
            },
            ScramFinal::Rejected => {
                if self.failures >= 2 {
                    return SaslAction::Fatal;
                }
                self.failures = self.failures + 1;
                // The exchange stays ended; later responses are refused
                // the same way until the failure budget runs out.
                self.scram = Some(server);
                SaslAction::Failure(failure_element("not-authorized"))
            },
        }
    }
}

} // verus!
