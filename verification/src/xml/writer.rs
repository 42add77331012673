//! Namespace-aware writer: turns element trees into their wire form.
//!
//! The writer owns a stack of namespace frames and never emits XML that
//! resolves a name against a namespace no ancestor declared: such a tree is
//! reported as an error, not silently dropped.

use vstd::prelude::*;

use crate::xml::ser::{
    decl_frame, env_inside, env_lookup, frame_lookup, initial_env, qname_of, ser_attr, ser_attrs,
    ser_close_tag, ser_elem, ser_node, ser_nodes, ser_open_parts, NsBinding,
};
use crate::xml::{
    attr_model, lemma_nodes_model_len, node_model, opt_string_as_deref, str_eq, Element, Node,
};
use crate::xml::namespaces;

verus! {

/// Error raised when a tree resolves a name against an undeclared
/// namespace, or binds an attribute to the default namespace.
#[derive(Debug)]
pub enum WriteError {
    UnresolvedNamespace,
}

/// One exec namespace binding: URI to prefix.
pub(crate) struct NsPair {
    pub(crate) uri: String,
    pub(crate) prefix: String,
}

impl View for NsPair {
    type V = NsBinding;

    closed spec fn view(&self) -> NsBinding {
        NsBinding { uri: self.uri@, prefix: self.prefix@ }
    }
}

pub(crate) open spec fn frame_of(f: Seq<NsPair>) -> Seq<NsBinding> {
    Seq::new(f.len(), |i: int| f[i]@)
}

/// The namespace-aware writer: a stack of namespace frames.
pub struct StreamWriter {
    frames: Vec<Vec<NsPair>>,
}

impl View for StreamWriter {
    type V = Seq<Seq<NsBinding>>;

    closed spec fn view(&self) -> Seq<Seq<NsBinding>> {
        Seq::new(self.frames@.len(), |i: int| frame_of(self.frames@[i]@))
    }
}

proof fn lemma_ser_attrs_none_mono(s: Seq<crate::xml::AttrModel>, k: int, env1: Seq<Seq<NsBinding>>)
    requires
        0 <= k <= s.len(),
        ser_attrs(s.take(k), env1) is None,
    ensures
        ser_attrs(s, env1) is None,
    decreases s.len() - k,
{
    if k == s.len() {
        assert(s.take(k) =~= s);
    } else {
        assert(s.take(k + 1).drop_last() =~= s.take(k));
        lemma_ser_attrs_none_mono(s, k + 1, env1);
    }
}

proof fn lemma_ser_nodes_none_mono(s: Seq<crate::xml::NodeModel>, k: int, env1: Seq<Seq<NsBinding>>)
    requires
        0 <= k <= s.len(),
        ser_nodes(s.take(k), env1) is None,
    ensures
        ser_nodes(s, env1) is None,
    decreases s.len() - k,
{
    if k == s.len() {
        assert(s.take(k) =~= s);
    } else {
        assert(s.take(k + 1).drop_last() =~= s.take(k));
        lemma_ser_nodes_none_mono(s, k + 1, env1);
    }
}

impl StreamWriter {
    /// A fresh writer, holding only the two reserved bindings.
    pub fn new() -> (r: StreamWriter)
        ensures
            r@ == initial_env(),
    {
        let mut root: Vec<NsPair> = Vec::new();
        root.push(NsPair { uri: namespaces::ns_xml().to_owned(), prefix: "xml".to_owned() });
        root.push(NsPair { uri: namespaces::ns_xmlns().to_owned(), prefix: "xmlns".to_owned() });
        let mut frames: Vec<Vec<NsPair>> = Vec::new();
        frames.push(root);
        let r = StreamWriter { frames };
        proof {
            assert(frame_of(r.frames@[0]@) =~= initial_env()[0]);
            assert(r@ =~= initial_env());
        }
        r
    }

    /// The prefix the stack binds to `uri`, if any; inner frames win.
    fn lookup_prefix(&self, uri: &str) -> (r: Option<String>)
        ensures
            crate::xml::opt_string_view(r) == env_lookup(self@, uri@),
    {
        let ghost env = self@;
        let mut fi = self.frames.len();
        proof {
            assert(env.take(fi as int) =~= env);
        }
        while fi > 0
            invariant
                fi <= self.frames.len(),
                env == self@,
                env_lookup(env, uri@) == env_lookup(env.take(fi as int), uri@),
            decreases fi,
        {
            fi = fi - 1;
            let frame = &self.frames[fi];
            let ghost fmodel = frame_of(frame@);
            let mut bi = frame.len();
            proof {
                assert(fmodel.take(bi as int) =~= fmodel);
            }
            while bi > 0
                invariant
                    bi <= frame.len(),
                    fi < self.frames.len(),
                    env == self@,
                    fmodel == frame_of(frame@),
                    fmodel == env[fi as int],
                    env_lookup(env, uri@) == env_lookup(env.take(fi + 1), uri@),
                    frame_lookup(fmodel, uri@) == frame_lookup(fmodel.take(bi as int), uri@),
                decreases bi,
            {
                bi = bi - 1;
                proof {
                    assert(fmodel.take(bi + 1).last() == fmodel[bi as int]);
                    assert(fmodel.take(bi + 1).drop_last() =~= fmodel.take(bi as int));
                }
                if str_eq(frame[bi].uri.as_str(), uri) {
                    proof {
                        assert(fmodel[bi as int] == frame@[bi as int]@);
                        assert(frame_lookup(fmodel, uri@) == Some(fmodel[bi as int].prefix));
                        assert(env.take(fi + 1).last() == env[fi as int]);
                        assert(env_lookup(env.take(fi + 1), uri@) == Some(
                            fmodel[bi as int].prefix,
                        ));
                    }
                    return Some(frame[bi].prefix.clone());
                }
            }
            proof {
                assert(fmodel.take(0) =~= Seq::<NsBinding>::empty());
                assert(env.take(fi + 1).last() == env[fi as int]);
                assert(env.take(fi + 1).drop_last() =~= env.take(fi as int));
            }
        }
        proof {
            assert(env.take(0) =~= Seq::<Seq<NsBinding>>::empty());
        }
        None
    }

    /// Serializes one element in the current stack. The stack is unchanged
    /// afterwards; an unresolvable namespace anywhere in the tree is an
    /// error.
    #[verifier::rlimit(80)]
    pub fn write_xml_element(&mut self, e: &Element) -> (r: Result<String, WriteError>)
        ensures
            final(self)@ == old(self)@,
            match r {
                Ok(s) => ser_elem(e@, old(self)@) == Some(s@),
                Err(_) => ser_elem(e@, old(self)@) is None,
            },
        decreases *e,
    {
        let ghost env = self@;
        let ghost em = e@;

        // Collect the namespace declarations of this element's attributes.
        let mut frame: Vec<NsPair> = Vec::new();
        let na = e.attributes.len();
        proof {
            assert(em.attrs.take(0) =~= Seq::<crate::xml::AttrModel>::empty());
            assert(frame_of(frame@) =~= decl_frame(em.attrs.take(0)));
        }
        for i in 0..na
            invariant
                na == e.attributes.len(),
                em == e@,
                frame_of(frame@) == decl_frame(em.attrs.take(i as int)),
        {
            let a = &e.attributes[i];
            proof {
                assert(em.attrs.take(i + 1).drop_last() =~= em.attrs.take(i as int));
                assert(em.attrs.take(i + 1).last() == em.attrs[i as int]);
                assert(em.attrs[i as int] == attr_model(e.attributes@[i as int]));
            }
            let is_default_decl = match &a.namespace {
                None => str_eq(a.name.as_str(), "xmlns"),
                Some(_) => false,
            };
            let is_prefix_decl = match &a.namespace {
                Some(ns) => str_eq(ns.as_str(), namespaces::ns_xmlns()),
                None => false,
            };
            if is_default_decl {
                frame.push(NsPair { uri: a.value.clone(), prefix: String::new() });
            } else if is_prefix_decl {
                frame.push(NsPair { uri: a.value.clone(), prefix: a.name.clone() });
            }
            proof {
                assert(frame_of(frame@) =~= decl_frame(em.attrs.take(i + 1)));
            }
        }
        proof {
            assert(em.attrs.take(na as int) =~= em.attrs);
        }
        self.frames.push(frame);
        let ghost env1 = self@;
        proof {
            assert(env1 =~= env_inside(em, env));
        }

        // Resolve the element's qualified name.
        let qname = match opt_string_as_deref(&e.namespace) {
            None => e.name.clone(),
            Some(u) => match self.lookup_prefix(u) {
                Some(p) => {
                    if p.as_str().is_empty() {
                        e.name.clone()
                    } else {
                        let mut q = p;
                        q.append(":");
                        q.append(e.name.as_str());
                        proof {
                            reveal_strlit(":");
                            assert(q@ =~= env_lookup(env1, u@).unwrap() + seq![':'] + em.name);
                        }
                        q
                    }
                },
                None => {
                    proof {
                        lemma_ser_elem_none_from_qname(em, env);
                    }
                    let _ = self.frames.pop();
                    proof {
                        assert(self@ =~= env1.drop_last());
                        assert(env1.drop_last() =~= env);
                    }
                    return Err(WriteError::UnresolvedNamespace);
                },
            },
        };
        proof {
            assert(qname_of(em, env1) == Some(qname@));
        }

        // Serialize the attribute list.
        let mut ats = String::new();
        proof {
            assert(em.attrs.take(0) =~= Seq::<crate::xml::AttrModel>::empty());
            assert(ser_attrs(em.attrs.take(0), env1) == Some(ats@));
        }
        for i in 0..na
            invariant
                na == e.attributes.len(),
                em == e@,
                env1 == self@,
                env1 == env_inside(em, env),
                env == old(self)@,
                ser_attrs(em.attrs.take(i as int), env1) == Some(ats@),
        {
            let a = &e.attributes[i];
            proof {
                assert(em.attrs.take(i + 1).drop_last() =~= em.attrs.take(i as int));
                assert(em.attrs.take(i + 1).last() == em.attrs[i as int]);
                assert(em.attrs[i as int] == attr_model(e.attributes@[i as int]));
            }
            match opt_string_as_deref(&a.namespace) {
                None => {
                    ats.append(" ");
                    ats.append(a.name.as_str());
                    ats.append("=\"");
                    ats.append(a.value.as_str());
                    ats.append("\"");
                    proof {
                        reveal_strlit(" ");
                        reveal_strlit("=\"");
                        reveal_strlit("\"");
                        assert(ser_attr(em.attrs[i as int], env1).unwrap() =~= seq![' ']
                            + em.attrs[i as int].name + seq!['=', '"'] + em.attrs[i as int].value
                            + seq!['"']);
                    }
                },
                Some(u) => {
                    match self.lookup_prefix(u) {
                        Some(p) => {
                            if p.as_str().is_empty() {
                                proof {
                                    lemma_ser_attrs_none_mono(em.attrs, i + 1, env1);
                                    lemma_ser_elem_none_from_attrs(em, env);
                                }
                                let _ = self.frames.pop();
                                proof {
                                    assert(self@ =~= env1.drop_last());
                                    assert(env1.drop_last() =~= env);
                                }
                                return Err(WriteError::UnresolvedNamespace);
                            } else {
                                ats.append(" ");
                                ats.append(p.as_str());
                                ats.append(":");
                                ats.append(a.name.as_str());
                                ats.append("=\"");
                                ats.append(a.value.as_str());
                                ats.append("\"");
                                proof {
                                    reveal_strlit(" ");
                                    reveal_strlit(":");
                                    reveal_strlit("=\"");
                                    reveal_strlit("\"");
                                    assert(ser_attr(em.attrs[i as int], env1).unwrap() =~= seq![' ']
                                        + p@ + seq![':'] + em.attrs[i as int].name + seq!['=', '"']
                                        + em.attrs[i as int].value + seq!['"']);
                                }
                            }
                        },
                        None => {
                            proof {
                                lemma_ser_attrs_none_mono(em.attrs, i + 1, env1);
                                lemma_ser_elem_none_from_attrs(em, env);
                            }
                            let _ = self.frames.pop();
                            proof {
                                assert(self@ =~= env1.drop_last());
                                assert(env1.drop_last() =~= env);
                            }
                            return Err(WriteError::UnresolvedNamespace);
                        },
                    }
                },
            }
        }
        proof {
            assert(em.attrs.take(na as int) =~= em.attrs);
        }

        // Assemble the opening tag.
        let mut out = String::new();
        out.append("<");
        out.append(qname.as_str());
        out.append(ats.as_str());
        proof {
            reveal_strlit("<");
            assert(out@ =~= ser_open_parts(em, env1).unwrap());
        }

        if e.children.len() == 0 {
            out.append("/>");
            let _ = self.frames.pop();
            proof {
                reveal_strlit("/>");
                assert(self@ =~= env1.drop_last());
                assert(env1.drop_last() =~= env);
                assert(out@ =~= ser_open_parts(em, env1).unwrap() + seq!['/', '>']);
            }
            return Ok(out);
        }

        out.append(">");
        proof {
            reveal_strlit(">");
        }
        let ghost open_and_gt = out@;
        proof {
            assert(open_and_gt =~= ser_open_parts(em, env1).unwrap() + seq!['>']);
        }

        // Serialize the children in document order.
        let nc = e.children.len();
        let ghost kids = em.children;
        proof {
            lemma_nodes_model_len(e.children@);
            assert(kids.take(0) =~= Seq::<crate::xml::NodeModel>::empty());
        }
        let mut body = String::new();
        for i in 0..nc
            invariant
                nc == e.children.len(),
                em == e@,
                kids == em.children,
                env1 == self@,
                env1 == env_inside(em, env),
                env == old(self)@,
                ser_nodes(kids.take(i as int), env1) == Some(body@),
        {
            proof {
                lemma_nodes_model_len(e.children@);
                assert(kids.take(i + 1).drop_last() =~= kids.take(i as int));
                assert(kids.take(i + 1).last() == kids[i as int]);
                assert(kids[i as int] == node_model(e.children@[i as int]));
            }
            match &e.children[i] {
                Node::Element(ce) => {
                    match self.write_xml_element(ce) {
                        Ok(s) => {
                            body.append(s.as_str());
                        },
                        Err(err) => {
                            proof {
                                lemma_ser_nodes_none_mono(kids, i + 1, env1);
                                lemma_ser_elem_none_from_children(em, env);
                            }
                            let _ = self.frames.pop();
                            proof {
                                assert(self@ =~= env1.drop_last());
                                assert(env1.drop_last() =~= env);
                            }
                            return Err(err);
                        },
                    }
                },
                Node::Text(t) => {
                    body.append(t.as_str());
                },
                Node::CData(t) => {
                    body.append("<![CDATA[");
                    body.append(t.as_str());
                    body.append("]]>");
                    proof {
                        reveal_strlit("<![CDATA[");
                        reveal_strlit("]]>");
                        assert(ser_node(kids[i as int], env1).unwrap() =~= seq![
                            '<', '!', '[', 'C', 'D', 'A', 'T', 'A', '[',
                        ] + kids[i as int]->CData_0 + seq![']', ']', '>']);
                    }
                },
                Node::Comment(t) => {
                    body.append("<!--");
                    body.append(t.as_str());
                    body.append("-->");
                    proof {
                        reveal_strlit("<!--");
                        reveal_strlit("-->");
                        assert(ser_node(kids[i as int], env1).unwrap() =~= seq!['<', '!', '-', '-']
                            + kids[i as int]->Comment_0 + seq!['-', '-', '>']);
                    }
                },
                Node::ProcessingInstruction(t) => {
                    body.append("<?");
                    body.append(t.as_str());
                    body.append("?>");
                    proof {
                        reveal_strlit("<?");
                        reveal_strlit("?>");
                        assert(ser_node(kids[i as int], env1).unwrap() =~= seq!['<', '?']
                            + kids[i as int]->Pi_0 + seq!['?', '>']);
                    }
                },
            }
        }
        proof {
            assert(kids.take(nc as int) =~= kids);
        }

        // Closing tag, with the same resolution as the opening one.
        out.append(body.as_str());
        out.append("</");
        out.append(qname.as_str());
        out.append(">");
        let _ = self.frames.pop();
        proof {
            reveal_strlit("</");
            reveal_strlit(">");
            assert(self@ =~= env1.drop_last());
            assert(env1.drop_last() =~= env);
            assert(ser_close_tag(em, env1) == Some(seq!['<', '/'] + qname@ + seq!['>']));
            assert(out@ =~= ser_open_parts(em, env1).unwrap() + seq!['>']
                + ser_nodes(kids, env1).unwrap() + ser_close_tag(em, env1).unwrap());
        }
        Ok(out)
    }
}

/// When the element's namespace is undeclared in its inside stack, the
/// element cannot be serialized.
proof fn lemma_ser_elem_none_from_qname(e: crate::xml::ElemModel, env: Seq<Seq<NsBinding>>)
    requires
        qname_of(e, env_inside(e, env)) is None,
    ensures
        ser_elem(e, env) is None,
{
}

/// When the attribute list of `e` cannot be serialized in its own stack,
/// neither can `e`.
proof fn lemma_ser_elem_none_from_attrs(e: crate::xml::ElemModel, env: Seq<Seq<NsBinding>>)
    requires
        ser_attrs(e.attrs, env_inside(e, env)) is None,
    ensures
        ser_elem(e, env) is None,
{
}

/// When the children of `e` cannot be serialized in its inside stack,
/// neither can `e`.
proof fn lemma_ser_elem_none_from_children(e: crate::xml::ElemModel, env: Seq<Seq<NsBinding>>)
    requires
        ser_nodes(e.children, env_inside(e, env)) is None,
    ensures
        ser_elem(e, env) is None,
{
}

/// The opening of a stream: optional XML declaration, then the stream
/// root tag with the server's identity, the random stream identifier and
/// the two namespace declarations.
pub open spec fn stream_header_text(
    from: crate::jid::JidModel,
    id: Seq<char>,
    include_decl: bool,
) -> Seq<char> {
    let decl: Seq<char> = if include_decl {
        "<?xml version='1.0'?>"@
    } else {
        Seq::empty()
    };
    decl + "<stream:stream from=\""@ + crate::jid::jid_text(from) + "\" id=\""@ + id
        + "\" version=\"1.0\" xml:lang=\"en\" xmlns=\"jabber:client\" xmlns:stream=\"http://etherx.jabber.org/streams\">"@
}

/// The frame the stream root declares: the client default namespace and
/// the `stream` prefix.
pub open spec fn stream_root_frame() -> Seq<NsBinding> {
    seq![
        NsBinding { uri: "jabber:client"@, prefix: Seq::empty() },
        NsBinding { uri: "http://etherx.jabber.org/streams"@, prefix: "stream"@ },
    ]
}

/// Error of writing a stream header.
#[derive(Debug)]
pub enum HeaderError {
    MissingFrom,
}

impl StreamWriter {
    /// Writes the stream opening tag: `from` is required, the identifier
    /// is sixteen fresh random bytes in base64. The declared bindings
    /// stay on the stack for the fragments that follow.
    pub fn write_stream_header(
        &mut self,
        header: &crate::xmpp::stream_header::StreamHeader,
        include_xml_declaration: bool,
    ) -> (r: Result<String, HeaderError>)
        ensures
            match r {
                Ok(out) => ({
                    &&& header.from matches Some(f)
                    &&& exists|id: Seq<u8>|
                        id.len() == 16 && out@ == stream_header_text(
                            f@,
                            crate::crypto::b64_of(id),
                            include_xml_declaration,
                        )
                    &&& final(self).frame_models() == old(self).frame_models().push(
                        stream_root_frame(),
                    )
                }),
                Err(_) => header.from is None && *final(self) == *old(self),
            },
    {
        let from = match &header.from {
            Some(f) => f,
            None => {
                return Err(HeaderError::MissingFrom);
            },
        };
        let id_raw = crate::crypto::random_bytes_16();
        let id = crate::crypto::b64_encode(&id_raw);
        let mut out = String::new();
        if include_xml_declaration {
            out.append("<?xml version='1.0'?>");
        }
        out.append("<stream:stream from=\"");
        let from_text = from.as_text();
        out.append(from_text.as_str());
        out.append("\" id=\"");
        out.append(id.as_str());
        out.append(
            "\" version=\"1.0\" xml:lang=\"en\" xmlns=\"jabber:client\" xmlns:stream=\"http://etherx.jabber.org/streams\">",
        );
        let mut frame: Vec<NsPair> = Vec::new();
        frame.push(
            NsPair {
                uri: crate::xml::namespaces::ns_xmpp_client().to_owned(),
                prefix: String::new(),
            },
        );
        frame.push(
            NsPair {
                uri: crate::xml::namespaces::ns_xmpp_streams().to_owned(),
                prefix: "stream".to_owned(),
            },
        );
        proof {
            assert(frame_of(frame@) =~= stream_root_frame());
        }
        self.frames.push(frame);
        proof {
            reveal_strlit("<?xml version='1.0'?>");
            assert(self@ =~= old(self)@.push(stream_root_frame()));
            assert(out@ =~= stream_header_text(
                from@,
                id@,
                include_xml_declaration,
            ));
        }
        Ok(out)
    }

    /// Writes the stream closing tag and pops the stream root's frame.
    pub fn write_stream_close(&mut self) -> (r: String)
        ensures
            r@ == "</stream:stream>"@,
            old(self).frame_models().len() > 0 ==> final(self).frame_models() == old(
                self,
            ).frame_models().drop_last(),
    {
        let _ = self.frames.pop();
        proof {
            if old(self)@.len() > 0 {
                assert(self@ =~= old(self)@.drop_last());
            }
        }
        "</stream:stream>".to_owned()
    }

    /// The stack of namespace frames, as a mathematical value.
    pub open spec fn frame_models(&self) -> Seq<Seq<NsBinding>> {
        self@
    }

    /// Whether the stream root's frame sits on top of the stack, as after
    /// a written stream header.
    pub open spec fn stream_frame_open(&self) -> bool {
        self.frame_models().len() > 0 && self.frame_models().last() == stream_root_frame()
    }

    /// Checks for the stream root's frame on top of the stack.
    pub fn has_stream_frame(&self) -> (r: bool)
        ensures
            r == self.stream_frame_open(),
    {
        proof {
            reveal_strlit("stream");
        }
        let n = self.frames.len();
        if n == 0 {
            return false;
        }
        let top = &self.frames[n - 1];
        let ghost topmodel = frame_of(top@);
        proof {
            assert(self@.last() == topmodel);
        }
        if top.len() != 2 {
            proof {
                assert(topmodel.len() == top@.len());
                assert(stream_root_frame().len() == 2);
            }
            return false;
        }
        let client_ok = str_eq(top[0].uri.as_str(), crate::xml::namespaces::ns_xmpp_client())
            && top[0].prefix.as_str().is_empty();
        let streams_ok = str_eq(top[1].uri.as_str(), crate::xml::namespaces::ns_xmpp_streams())
            && str_eq(top[1].prefix.as_str(), "stream");
        let r = client_ok && streams_ok;
        proof {
            assert(topmodel[0] == top@[0]@);
            assert(topmodel[1] == top@[1]@);
            if r {
                assert(topmodel =~~= stream_root_frame());
            } else {
                assert(topmodel[0] != stream_root_frame()[0] || topmodel[1]
                    != stream_root_frame()[1]);
            }
        }
        r
    }
}

} // verus!
