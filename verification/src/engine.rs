//! The inbound stream engine: header exchange, feature advertisement,
//! dispatch of frames to the negotiators, and stanza forwarding.
//!
//! The engine is a state machine on frames and elements. All I/O — the
//! socket, the TLS handshake, the mailbox, the store — stays with the
//! caller, which performs the returned actions.

use vstd::prelude::*;

use crate::bind::{bind_feature_model, bind_request_accepted, ResourceBindingNegotiator};
use crate::crypto::b64_of;
use crate::jid::{opt_jid_model, Jid};
use crate::sasl::{
    abort_element_ok, auth_decision, auth_element_ok, challenge_elem_model, failure_elem_model,
    mechanisms_elem_model, response_accepted, resume_ready, AuthDecision, SaslAction,
    SaslNegotiator,
};
use crate::sasl::scram_server::ScramPhase;
use crate::scram::StoredPasswordScram;
use crate::starttls::{proceed_model, starttls_feature_model, StarttlsNegotiator};
use crate::xml::ser::{
    decl_frame, env_inside, env_lookup, frame_lookup, qname_of, ser_attrs, ser_close_tag,
    ser_elem, ser_nodes, ser_open_parts, NsBinding,
};
use crate::xml::writer::{stream_header_text, stream_root_frame, HeaderError};
use crate::xml::{attr_lookup, AttrModel, Element, ElemModel, NodeModel};
use crate::xmpp::stream::{UpgradeError, XmppStream};
use crate::xmpp::stream_header::{opt_lang_model, LanguageTag, StreamHeader, StreamId};
use vstd::utf8::encode_utf8;

verus! {

/// Whether the peer is a client or another server.
#[derive(Clone, Copy, PartialEq, Eq, Structural)]
pub enum ConnectionType {
    Client,
    Server,
}

/// The features the engine can negotiate inline.
#[derive(Clone, Copy, PartialEq, Eq, Structural)]
pub enum StreamFeatures {
    Tls,
    Authentication,
    ResourceBinding,
}

/// What the engine was configured with.
pub struct InboundStreamSettings {
    pub connection_type: ConnectionType,
    pub domain: Jid,
    pub tls_required: bool,
}

/// What the engine has learned about this stream.
pub struct StreamInfo {
    pub stream_id: StreamId,
    pub jid: Option<Jid>,
    pub peer_jid: Option<Jid>,
    pub peer_language: Option<LanguageTag>,
    pub connection_type: Option<ConnectionType>,
    pub tls_done: bool,
    pub auth_done: bool,
    pub bind_done: bool,
}

/// The set of features that may be negotiated next: a function of the
/// channel's STARTTLS capability, the TLS requirement, what has been
/// negotiated, and the connection type — and of nothing else.
pub open spec fn negotiable_spec(
    starttls_allowed: bool,
    tls_required: bool,
    tls_done: bool,
    auth_done: bool,
    bind_done: bool,
    is_client: bool,
) -> Seq<StreamFeatures> {
    let tls: Seq<StreamFeatures> = if starttls_allowed && !tls_done {
        seq![StreamFeatures::Tls]
    } else {
        Seq::empty()
    };
    let auth: Seq<StreamFeatures> = if (!tls_required || tls_done) && !auth_done {
        seq![StreamFeatures::Authentication]
    } else {
        Seq::empty()
    };
    let bindf: Seq<StreamFeatures> = if is_client && auth_done && !bind_done {
        seq![StreamFeatures::ResourceBinding]
    } else {
        Seq::empty()
    };
    tls + auth + bindf
}

/// The negotiable set has no hidden state: equal tuples give equal sets.
pub proof fn lemma_negotiable_is_function(
    a1: bool,
    r1: bool,
    t1: bool,
    au1: bool,
    b1: bool,
    c1: bool,
    a2: bool,
    r2: bool,
    t2: bool,
    au2: bool,
    b2: bool,
    c2: bool,
)
    requires
        a1 == a2 && r1 == r2 && t1 == t2 && au1 == au2 && b1 == b2 && c1 == c2,
    ensures
        negotiable_spec(a1, r1, t1, au1, b1, c1) == negotiable_spec(a2, r2, t2, au2, b2, c2),
{
}

/// The feature child advertised for one negotiable feature.
pub open spec fn feature_child_model(
    f: StreamFeatures,
    secure: bool,
    authenticated: bool,
) -> NodeModel {
    match f {
        StreamFeatures::Tls => NodeModel::Elem(starttls_feature_model()),
        StreamFeatures::Authentication => NodeModel::Elem(
            mechanisms_elem_model(secure, authenticated),
        ),
        StreamFeatures::ResourceBinding => NodeModel::Elem(bind_feature_model()),
    }
}

/// The `<stream:features>` element for a negotiable set.
pub open spec fn features_elem_model(
    negotiable: Seq<StreamFeatures>,
    secure: bool,
    authenticated: bool,
) -> ElemModel {
    ElemModel {
        name: "features"@,
        ns: Some("http://etherx.jabber.org/streams"@),
        attrs: Seq::empty(),
        children: Seq::new(
            negotiable.len(),
            |i: int| feature_child_model(negotiable[i], secure, authenticated),
        ),
    }
}

/// The fatal `<stream:error>` with an internal-server-error condition.
pub open spec fn stream_error_model() -> ElemModel {
    ElemModel {
        name: "error"@,
        ns: Some("http://etherx.jabber.org/streams"@),
        attrs: Seq::empty(),
        children: seq![
            NodeModel::Elem(
                ElemModel {
                    name: "internal-server-error"@,
                    ns: Some("urn:ietf:params:xml:ns:xmpp-streams"@),
                    attrs: seq![
                        AttrModel {
                            name: "xmlns"@,
                            ns: None,
                            value: "urn:ietf:params:xml:ns:xmpp-streams"@,
                        },
                    ],
                    children: Seq::empty(),
                },
            ),
        ],
    }
}


/// The fixed text of the fatal stream error.
pub open spec fn stream_error_text() -> Seq<char> {
    "<stream:error><internal-server-error xmlns=\"urn:ietf:params:xml:ns:xmpp-streams\"/></stream:error>"@
}

/// The opening part of a fatal response: a fresh header when none was
/// sent, nothing otherwise.
pub open spec fn fatal_header_part(
    send_header: bool,
    domain: crate::jid::JidModel,
    id: Seq<u8>,
) -> Seq<char> {
    if send_header {
        stream_header_text(domain, b64_of(id), true)
    } else {
        Seq::empty()
    }
}

/// In a stack topped by the stream root's frame, the fatal error element
/// serializes to its fixed text.
#[verifier::rlimit(100)]
proof fn lemma_stream_error_serializes(env: Seq<Seq<NsBinding>>)
    requires
        env.len() > 0,
        env.last() == stream_root_frame(),
    ensures
        ser_elem(stream_error_model(), env) == Some(stream_error_text()),
{
    reveal_strlit("<stream:error><internal-server-error xmlns=\"urn:ietf:params:xml:ns:xmpp-streams\"/></stream:error>");
    reveal_strlit("error");
    reveal_strlit("internal-server-error");
    reveal_strlit("xmlns");
    reveal_strlit("urn:ietf:params:xml:ns:xmpp-streams");
    reveal_strlit("stream");
    reveal_strlit("http://etherx.jabber.org/streams");
    reveal_strlit("jabber:client");
    let e = stream_error_model();
    let streams_uri = "http://etherx.jabber.org/streams"@;
    let errors_uri = "urn:ietf:params:xml:ns:xmpp-streams"@;
    let env1 = env_inside(e, env);
    assert(decl_frame(e.attrs) =~= Seq::<NsBinding>::empty());
    assert(env1.last() =~= Seq::<NsBinding>::empty());
    assert(env1.drop_last() =~= env);
    assert(frame_lookup(Seq::<NsBinding>::empty(), streams_uri) is None);
    assert(stream_root_frame().last() == NsBinding { uri: streams_uri, prefix: "stream"@ });
    assert(errors_uri.len() == 35 && streams_uri.len() == 32);
    assert(errors_uri != streams_uri);
    assert(frame_lookup(stream_root_frame(), streams_uri) == Some("stream"@));
    assert(env_lookup(env, streams_uri) == Some("stream"@));
    assert(env_lookup(env1, streams_uri) == Some("stream"@));
    assert(qname_of(e, env1) == Some("stream"@ + seq![':'] + "error"@));
    assert(ser_attrs(e.attrs, env1) == Some(Seq::<char>::empty()));

    let inner = ElemModel {
        name: "internal-server-error"@,
        ns: Some(errors_uri),
        attrs: seq![AttrModel { name: "xmlns"@, ns: None, value: errors_uri }],
        children: Seq::empty(),
    };
    assert(e.children[0] == NodeModel::Elem(inner));
    let env2 = env_inside(inner, env1);
    assert(decl_frame(inner.attrs) =~= seq![
        NsBinding { uri: errors_uri, prefix: Seq::empty() },
    ]) by {
        assert(inner.attrs.drop_last() =~= Seq::<AttrModel>::empty());
        assert(inner.attrs.last() == AttrModel { name: "xmlns"@, ns: None, value: errors_uri });
        assert(decl_frame(Seq::<AttrModel>::empty()) =~= Seq::<NsBinding>::empty());
    }
    assert(env2.last() == decl_frame(inner.attrs));
    assert(frame_lookup(decl_frame(inner.attrs), errors_uri) == Some(Seq::<char>::empty()));
    assert(env_lookup(env2, errors_uri) == Some(Seq::<char>::empty()));
    assert(qname_of(inner, env2) == Some("internal-server-error"@));
    let inner_attr_text = seq![' '] + "xmlns"@ + seq!['=', '"'] + errors_uri + seq!['"'];
    assert(ser_attrs(inner.attrs, env2) == Some(inner_attr_text)) by {
        assert(inner.attrs.drop_last() =~= Seq::<AttrModel>::empty());
        assert(ser_attrs(Seq::<AttrModel>::empty(), env2) == Some(Seq::<char>::empty()));
        assert(Seq::<char>::empty() + inner_attr_text =~= inner_attr_text);
    }
    let inner_text = seq!['<'] + "internal-server-error"@ + inner_attr_text + seq!['/', '>'];
    assert(ser_elem(inner, env1) == Some(inner_text));
    assert(ser_nodes(e.children, env1) == Some(inner_text)) by {
        assert(e.children.drop_last() =~= Seq::<NodeModel>::empty());
        assert(e.children.last() == NodeModel::Elem(inner));
        assert(ser_nodes(Seq::<NodeModel>::empty(), env1) == Some(Seq::<char>::empty()));
        assert(Seq::<char>::empty() + inner_text =~= inner_text);
    }
    let q = "stream"@ + seq![':'] + "error"@;
    assert(ser_close_tag(e, env1) == Some(seq!['<', '/'] + q + seq!['>']));
    assert(ser_open_parts(e, env1) == Some(seq!['<'] + q + Seq::<char>::empty()));
    assert(ser_elem(e, env) == Some(
        (seq!['<'] + q + Seq::<char>::empty()) + seq!['>'] + inner_text + (seq!['<', '/'] + q
            + seq!['>']),
    ));
    assert((seq!['<'] + q + Seq::<char>::empty()) + seq!['>'] + inner_text + (seq!['<', '/'] + q
        + seq!['>']) =~= stream_error_text());
}

/// What the caller must do with one processed element.
pub enum EngineAction {
    /// Write the `<proceed/>`, perform the TLS handshake, then report it
    /// through `on_tls_upgraded`.
    Proceed(Element),
    /// Act on the SASL driver's demand; after a `Success` was written,
    /// call `complete_auth`.
    Sasl(SaslAction),
    /// Write the bind result and register the bound identity.
    BindResult(Element, Jid),
    /// Forward the element to the router as a stanza.
    Stanza(Element),
}

/// The per-connection engine.
pub struct InboundStream {
    pub stream: XmppStream,
    pub info: StreamInfo,
    pub sasl: Option<SaslNegotiator>,
    pub settings: InboundStreamSettings,
}

impl InboundStream {
    /// A fresh engine over a stream, with nothing negotiated.
    pub fn new(stream: XmppStream, settings: InboundStreamSettings) -> (r: InboundStream)
        ensures
            r.info.jid is None,
            r.info.peer_jid is None,
            r.info.connection_type is None,
            !r.info.tls_done && !r.info.auth_done && !r.info.bind_done,
            r.sasl is None,
            r.stream == stream,
            r.settings == settings,
    {
        InboundStream {
            stream,
            info: StreamInfo {
                stream_id: StreamId::new(),
                jid: None,
                peer_jid: None,
                peer_language: None,
                connection_type: None,
                tls_done: false,
                auth_done: false,
                bind_done: false,
            },
            sasl: None,
            settings,
        }
    }

    /// Whether the peer is a client.
    pub open spec fn is_client(&self) -> bool {
        self.info.connection_type == Some(ConnectionType::Client)
    }

    /// The negotiable set in the engine's current state.
    pub open spec fn negotiable_now(&self) -> Seq<StreamFeatures> {
        negotiable_spec(
            self.stream.is_starttls_allowed_spec(),
            self.settings.tls_required,
            self.info.tls_done,
            self.info.auth_done,
            self.info.bind_done,
            self.is_client(),
        )
    }

    /// Whether a feature is in the negotiable set.
    pub open spec fn wants(&self, f: StreamFeatures) -> bool {
        self.negotiable_now().contains(f)
    }

    /// Whether the element takes the STARTTLS step now.
    pub open spec fn takes_tls(&self, el: ElemModel) -> bool {
        &&& self.sasl is None
        &&& self.wants(StreamFeatures::Tls)
        &&& el.name == "starttls"@
        &&& el.ns == Some("urn:ietf:params:xml:ns:xmpp-tls"@)
    }

    /// Whether the element starts authentication now.
    pub open spec fn takes_auth(&self, el: ElemModel) -> bool {
        &&& self.sasl is None
        &&& !self.takes_tls(el)
        &&& self.wants(StreamFeatures::Authentication)
        &&& auth_element_ok(el)
    }

    /// Whether the element takes the binding step now.
    pub open spec fn takes_bind(&self, el: ElemModel) -> bool {
        &&& self.sasl is None
        &&& !self.takes_tls(el)
        &&& !self.takes_auth(el)
        &&& self.wants(StreamFeatures::ResourceBinding)
        &&& bind_request_accepted(el, opt_jid_model(self.info.peer_jid))
    }

    /// The features that may be negotiated next.
    pub fn negotiable_features(&self) -> (r: Vec<StreamFeatures>)
        ensures
            r@ == self.negotiable_now(),
    {
        let mut r: Vec<StreamFeatures> = Vec::new();
        if self.stream.is_starttls_allowed() && !self.info.tls_done {
            r.push(StreamFeatures::Tls);
        }
        if (!self.settings.tls_required || self.info.tls_done) && !self.info.auth_done {
            r.push(StreamFeatures::Authentication);
        }
        let client = match self.info.connection_type {
            Some(ConnectionType::Client) => true,
            _ => false,
        };
        if client && self.info.auth_done && !self.info.bind_done {
            r.push(StreamFeatures::ResourceBinding);
        }
        proof {
            assert(r@ =~= self.negotiable_now());
        }
        r
    }

    /// Records the peer's stream header: its `to` is the virtual host,
    /// its language is kept, the connection type comes from the settings.
    pub fn receive_stream_header(&mut self, header: StreamHeader)
        ensures
            final(self).info.connection_type == Some(old(self).settings.connection_type),
            opt_jid_model(final(self).info.jid) == header@.to,
            opt_lang_model(final(self).info.peer_language) == header@.language,
            final(self).info.tls_done == old(self).info.tls_done,
            final(self).info.auth_done == old(self).info.auth_done,
            final(self).info.bind_done == old(self).info.bind_done,
            final(self).info.peer_jid == old(self).info.peer_jid,
            final(self).stream == old(self).stream,
            final(self).sasl == old(self).sasl,
            final(self).settings == old(self).settings,
    {
        self.info.jid = header.to;
        self.info.peer_language = header.language;
        self.info.connection_type = Some(self.settings.connection_type);
    }

    /// The header the engine answers with: from the configured domain,
    /// to the peer when known, under this stream's identifier.
    pub fn outbound_header(&self) -> (r: StreamHeader)
        ensures
            r@.from == Some(self.settings.domain@),
            r@.id == Some(self.info.stream_id@),
            r@.language is None,
    {
        StreamHeader {
            from: Some(self.settings.domain.duplicate()),
            to: match &self.info.peer_jid {
                Some(j) => Some(j.duplicate()),
                None => None,
            },
            id: Some(self.info.stream_id.duplicate()),
            language: None,
        }
    }

    /// The `<stream:features>` advertisement for the current state.
    pub fn advertise_features(&self) -> (r: Element)
        ensures
            r@ == features_elem_model(
                self.negotiable_now(),
                self.stream.is_secure_spec(),
                self.stream.is_authenticated_spec(),
            ),
    {
        let negotiable = self.negotiable_features();
        let mut e = Element::new("features", Some(crate::xml::namespaces::ns_xmpp_streams()));
        let n = negotiable.len();
        let ghost secure = self.stream.is_secure_spec();
        let ghost authenticated = self.stream.is_authenticated_spec();
        for i in 0..n
            invariant
                n == negotiable.len(),
                negotiable@ == self.negotiable_now(),
                secure == self.stream.is_secure_spec(),
                authenticated == self.stream.is_authenticated_spec(),
                e@.name == "features"@,
                e@.ns == Some("http://etherx.jabber.org/streams"@),
                e@.attrs == Seq::<AttrModel>::empty(),
                e@.children == Seq::new(
                    i as nat,
                    |k: int| feature_child_model(negotiable@[k], secure, authenticated),
                ),
        {
            let child = match negotiable[i] {
                StreamFeatures::Tls => StarttlsNegotiator::advertise_feature(),
                StreamFeatures::Authentication => SaslNegotiator::advertise_feature(
                    self.stream.is_secure(),
                    self.stream.is_authenticated(),
                ),
                StreamFeatures::ResourceBinding => ResourceBindingNegotiator::advertise_feature(),
            };
            e.add_child(child);
            proof {
                assert(e@.children =~~= Seq::new(
                    (i + 1) as nat,
                    |k: int| feature_child_model(negotiable@[k], secure, authenticated),
                ));
            }
        }
        proof {
            assert(e@ =~~= features_elem_model(self.negotiable_now(), secure, authenticated));
        }
        e
    }

    /// Dispatches one top-level element: a running SASL exchange consumes
    /// it; otherwise the first matching negotiable feature takes it; what
    /// is left is a stanza for the router. Each outcome comes exactly on
    /// its condition.
    pub fn process_element(&mut self, el: Element) -> (r: EngineAction)
        ensures
            (r is Proceed) == old(self).takes_tls(el@),
            (r is Sasl) == (old(self).sasl is Some || old(self).takes_auth(el@)),
            (r is BindResult) == old(self).takes_bind(el@),
            (r is Stanza) == (old(self).sasl is None && !old(self).takes_tls(el@) && !old(
                self,
            ).takes_auth(el@) && !old(self).takes_bind(el@)),
            match r {
                EngineAction::Stanza(e) => e == el && *final(self) == *old(self),
                EngineAction::Proceed(p) => p@ == proceed_model() && *final(self) == *old(self),
                EngineAction::BindResult(reply, bound) => ({
                    &&& final(self).info.bind_done
                    &&& final(self).info.peer_jid matches Some(pj)
                    &&& pj@ == bound@
                    &&& opt_jid_model(old(self).info.peer_jid) matches Some(entity)
                    &&& bound@.local == entity.local
                    &&& bound@.domain == entity.domain
                    &&& attr_lookup(el@.attrs, "id"@, None) matches Some(request_id)
                    &&& reply@ == crate::bind::bind_result_model(
                        request_id,
                        crate::jid::jid_text(bound@),
                    )
                }),
                EngineAction::Sasl(a) => ({
                    &&& (old(self).sasl is None ==> ({
                        &&& (a is Lookup) == (auth_decision(el@) is Start)
                        &&& (a matches SaslAction::Failure(f) ==> auth_decision(el@) matches
                            AuthDecision::Refused(cond) && f@ == failure_elem_model(cond)
                            && final(self).sasl is None)
                        &&& (a matches SaslAction::Lookup(authid, alg) ==> auth_decision(el@)
                            matches AuthDecision::Start(aid, alg2) && authid@ == aid && alg
                            == alg2 && final(self).sasl is Some)
                        &&& (a is Lookup || a is Failure)
                    }))
                    &&& (old(self).sasl matches Some(d) ==> ({
                        &&& (a is Success) == response_accepted(d, el@)
                        &&& (a is Aborted) == abort_element_ok(el@)
                        &&& (a matches SaslAction::Success(su, jid) ==> d.scram matches Some(srv)
                            && srv.phase matches ScramPhase::AwaitFinal { authid, .. } && jid@.local
                            == Some(authid@) && jid@.domain == srv.domain@ && jid@.resource
                            is None)
                    }))
                }),
            },
    {
        if self.sasl.is_some() {
            proof {
                reveal_strlit("abort");
                reveal_strlit("response");
                assert("abort"@.len() == 5);
                assert("response"@.len() == 8);
            }
            let mut driver = self.sasl.take().unwrap();
            let action = driver.handle_response(&el);
            match &action {
                SaslAction::Success(_, _) => {
                    self.sasl = Some(driver);
                },
                SaslAction::Challenge(_) => {
                    self.sasl = Some(driver);
                },
                SaslAction::Failure(_) => {
                    self.sasl = Some(driver);
                },
                _ => {},
            }
            return EngineAction::Sasl(action);
        }
        let negotiable = self.negotiable_features();
        let ghost negmodel = self.negotiable_now();
        let mut tls_open = false;
        let mut auth_open = false;
        let mut bind_open = false;
        let n = negotiable.len();
        for i in 0..n
            invariant
                n == negotiable.len(),
                negotiable@ == negmodel,
                tls_open == exists|k: int| 0 <= k < i && negmodel[k] == StreamFeatures::Tls,
                auth_open == exists|k: int|
                    0 <= k < i && negmodel[k] == StreamFeatures::Authentication,
                bind_open == exists|k: int|
                    0 <= k < i && negmodel[k] == StreamFeatures::ResourceBinding,
        {
            match negotiable[i] {
                StreamFeatures::Tls => {
                    tls_open = true;
                },
                StreamFeatures::Authentication => {
                    auth_open = true;
                },
                StreamFeatures::ResourceBinding => {
                    bind_open = true;
                },
            }
            proof {
                assert(negmodel[i as int] == negotiable@[i as int]);
            }
        }
        proof {
            assert(tls_open == negmodel.contains(StreamFeatures::Tls));
            assert(auth_open == negmodel.contains(StreamFeatures::Authentication));
            assert(bind_open == negmodel.contains(StreamFeatures::ResourceBinding));
        }
        if tls_open && StarttlsNegotiator::is_starttls_request(&el) {
            return EngineAction::Proceed(StarttlsNegotiator::proceed_element());
        }
        if auth_open && el.validate("auth", Some(crate::xml::namespaces::ns_xmpp_sasl())) {
            let domain_text = self.settings.domain.as_text();
            let mut driver = SaslNegotiator::new(domain_text);
            let action = driver.handle_auth(&el);
            match &action {
                SaslAction::Lookup(_, _) => {
                    self.sasl = Some(driver);
                },
                _ => {},
            }
            return EngineAction::Sasl(action);
        }
        if bind_open {
            match ResourceBindingNegotiator::negotiate_feature(&el, &self.info.peer_jid) {
                Ok((reply, bound)) => {
                    self.info.bind_done = true;
                    self.info.peer_jid = Some(bound.duplicate());
                    return EngineAction::BindResult(reply, bound);
                },
                Err(_) => {},
            }
        }
        EngineAction::Stanza(el)
    }

    /// Consumes the store's answer for a pending SASL lookup: the
    /// challenge comes exactly when one was pending, and carries base64
    /// of the recorded server-first message.
    pub fn resume_sasl(&mut self, entry: Option<StoredPasswordScram>) -> (r: EngineAction)
        ensures
            r is Sasl,
            match r {
                EngineAction::Sasl(a) => ({
                    &&& (old(self).sasl is None ==> a is Fatal && *final(self) == *old(self))
                    &&& (old(self).sasl matches Some(d) ==> ({
                        &&& a is Challenge || a is Fatal
                        &&& (a is Challenge) == resume_ready(d, entry)
                        &&& (a matches SaslAction::Challenge(c) ==> final(self).sasl matches Some(
                            d2,
                        ) && d2.scram matches Some(s2) && s2.phase matches
                            ScramPhase::AwaitFinal { server_first, .. } && c@
                            == challenge_elem_model(
                            b64_of(encode_utf8(server_first@)),
                        ))
                    }))
                }),
                _ => false,
            },
    {
        match self.sasl.take() {
            Some(mut driver) => {
                let action = driver.resume(entry);
                self.sasl = Some(driver);
                EngineAction::Sasl(action)
            },
            None => EngineAction::Sasl(SaslAction::Fatal),
        }
    }

    /// Records a successful authentication: the stream resets — nothing
    /// buffered before it survives — and the peer's identity is kept for
    /// registration and binding.
    pub fn complete_auth(&mut self, peer: Jid)
        ensures
            final(self).info.auth_done,
            final(self).info.peer_jid == Some(peer),
            final(self).stream.parser_state().buffered().len() == 0,
            !final(self).stream.parser_state().is_started(),
            final(self).stream.is_starttls_allowed_spec() == old(
                self,
            ).stream.is_starttls_allowed_spec(),
            final(self).info.tls_done == old(self).info.tls_done,
            final(self).info.bind_done == old(self).info.bind_done,
            final(self).settings == old(self).settings,
            final(self).sasl is None,
    {
        self.sasl = None;
        self.info.auth_done = true;
        self.info.peer_jid = Some(peer);
        self.stream.reset();
    }

    /// Records a completed TLS upgrade: the channel's flags are replaced
    /// and the stream resets. Upgrading an already-secure channel fails
    /// and changes nothing.
    pub fn on_tls_upgraded(
        &mut self,
        starttls_allowed: bool,
        secure: bool,
        authenticated: bool,
    ) -> (r: Result<(), UpgradeError>)
        ensures
            (r is Ok) == !old(self).stream.is_secure_spec(),
            match r {
                Ok(_) => ({
                    &&& final(self).info.tls_done
                    &&& final(self).stream.is_secure_spec() == secure
                    &&& final(self).stream.is_authenticated_spec() == authenticated
                    &&& final(self).stream.is_starttls_allowed_spec() == starttls_allowed
                    &&& final(self).stream.parser_state().buffered().len() == 0
                    &&& final(self).info.auth_done == old(self).info.auth_done
                    &&& final(self).info.bind_done == old(self).info.bind_done
                    &&& final(self).settings == old(self).settings
                }),
                Err(_) => *final(self) == *old(self),
            },
    {
        match self.stream.mark_upgraded(starttls_allowed, secure, authenticated) {
            Ok(_) => {
                self.info.tls_done = true;
                Ok(())
            },
            Err(e) => Err(e),
        }
    }

    /// The whole fatal response, as the engine tears the stream down: a
    /// fresh header when none was sent yet, then exactly one stream
    /// error, then the stream close. Success is owed whenever a header is
    /// sent now or the stream root's frame is still open.
    pub fn fatal_close(&mut self, send_header: bool) -> (r: Result<String, HeaderError>)
        ensures
            (send_header || old(self).stream.writer.stream_frame_open()) ==> r is Ok,
            match r {
                Ok(out) => exists|id: Seq<u8>|
                    #![auto]
                    id.len() == 16 && out@ == fatal_header_part(
                        send_header,
                        old(self).settings.domain@,
                        id,
                    ) + stream_error_text() + "</stream:stream>"@,
                Err(_) => true,
            },
    {
        let ghost domain_model = self.settings.domain@;
        let mut out = String::new();
        let ghost mut header_text: Seq<char> = Seq::empty();
        if send_header {
            let header = self.outbound_header();
            match self.stream.writer.write_stream_header(&header, true) {
                Ok(h) => {
                    proof {
                        header_text = h@;
                    }
                    out.append(h.as_str());
                },
                Err(e) => {
                    proof {
                        assert(false);
                    }
                    return Err(e);
                },
            }
        } else if !self.stream.writer.has_stream_frame() {
            return Err(HeaderError::MissingFrom);
        }
        proof {
            lemma_stream_error_serializes(self.stream.writer.frame_models());
        }
        let error = Self::stream_error_element();
        let error_text = match self.stream.writer.write_xml_element(&error) {
            Ok(s) => s,
            Err(_) => {
                proof {
                    assert(false);
                }
                return Err(HeaderError::MissingFrom);
            },
        };
        out.append(error_text.as_str());
        let close = self.stream.writer.write_stream_close();
        out.append(close.as_str());
        proof {
            if send_header {
                let id = choose|id: Seq<u8>|
                    id.len() == 16 && header_text == stream_header_text(
                        domain_model,
                        b64_of(id),
                        true,
                    );
                assert(out@ =~= fatal_header_part(send_header, domain_model, id)
                    + stream_error_text() + "</stream:stream>"@);
            } else {
                let witness = Seq::new(16, |i: int| 0u8);
                assert(witness.len() == 16);
                assert(out@ =~= fatal_header_part(send_header, domain_model, witness)
                    + stream_error_text() + "</stream:stream>"@);
            }
        }
        Ok(out)
    }

    /// The fatal stream error element: exactly one is written, then the
    /// stream closes.
    pub fn stream_error_element() -> (r: Element)
        ensures
            r@ == stream_error_model(),
    {
        let mut inner = Element::new(
            "internal-server-error",
            Some(crate::xml::namespaces::ns_xmpp_stream_errors()),
        );
        inner.set_attribute("xmlns", None, crate::xml::namespaces::ns_xmpp_stream_errors());
        let mut e = Element::new("error", Some(crate::xml::namespaces::ns_xmpp_streams()));
        e.add_child(inner);
        proof {
            assert(e@ =~~= stream_error_model());
        }
        e
    }
}

} // verus!
