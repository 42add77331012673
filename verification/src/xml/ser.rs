//! Specification of the namespace-aware serialization of element trees.
//!
//! The writer keeps a stack of namespace frames; each frame binds namespace
//! URIs to prefixes. Serializing an element pushes the frame declared by its
//! `xmlns` attributes, resolves the element's and its attributes' namespaces
//! against the stack, emits the tag, and pops the frame afterwards.

use vstd::prelude::*;

use crate::xml::{AttrModel, ElemModel, NodeModel};

verus! {

/// One namespace binding: URI to prefix. The default namespace is bound to
/// the empty prefix.
#[verifier::ext_equal]
pub struct NsBinding {
    pub uri: Seq<char>,
    pub prefix: Seq<char>,
}

/// The reserved XML namespace URI.
pub open spec fn xml_uri() -> Seq<char> {
    "http://www.w3.org/XML/1998/namespace"@
}

/// The reserved XMLNS namespace URI.
pub open spec fn xmlns_uri() -> Seq<char> {
    "http://www.w3.org/2000/xmlns/"@
}

/// The writer's initial stack: one frame with the two reserved bindings.
pub open spec fn initial_env() -> Seq<Seq<NsBinding>> {
    seq![
        seq![
            NsBinding { uri: xml_uri(), prefix: "xml"@ },
            NsBinding { uri: xmlns_uri(), prefix: "xmlns"@ },
        ],
    ]
}

/// Prefix bound to `uri` in one frame; the binding declared last wins.
pub open spec fn frame_lookup(f: Seq<NsBinding>, uri: Seq<char>) -> Option<Seq<char>>
    decreases f.len(),
{
    if f.len() == 0 {
        None
    } else if f.last().uri == uri {
        Some(f.last().prefix)
    } else {
        frame_lookup(f.drop_last(), uri)
    }
}

/// Prefix bound to `uri` in the stack; inner frames shadow outer ones.
pub open spec fn env_lookup(env: Seq<Seq<NsBinding>>, uri: Seq<char>) -> Option<Seq<char>>
    decreases env.len(),
{
    if env.len() == 0 {
        None
    } else {
        match frame_lookup(env.last(), uri) {
            Some(p) => Some(p),
            None => env_lookup(env.drop_last(), uri),
        }
    }
}

/// The bindings one attribute declares: `xmlns="U"` binds the default
/// prefix, `xmlns:p="U"` (an attribute named `p` in the XMLNS namespace)
/// binds prefix `p`. Any other attribute declares nothing.
pub open spec fn attr_decl(a: AttrModel) -> Seq<NsBinding> {
    if a.ns is None && a.name == "xmlns"@ {
        seq![NsBinding { uri: a.value, prefix: Seq::empty() }]
    } else if a.ns == Some(xmlns_uri()) {
        seq![NsBinding { uri: a.value, prefix: a.name }]
    } else {
        Seq::empty()
    }
}

/// The namespace frame an attribute list declares, in attribute order.
pub open spec fn decl_frame(attrs: Seq<AttrModel>) -> Seq<NsBinding>
    decreases attrs.len(),
{
    if attrs.len() == 0 {
        Seq::empty()
    } else {
        decl_frame(attrs.drop_last()) + attr_decl(attrs.last())
    }
}

/// The stack in effect inside an element's tag and children.
pub open spec fn env_inside(e: ElemModel, env: Seq<Seq<NsBinding>>) -> Seq<Seq<NsBinding>> {
    env.push(decl_frame(e.attrs))
}

/// The serialized form of an element's qualified name, `None` when its
/// namespace is not declared. An element without a namespace keeps its bare
/// name.
pub open spec fn qname_of(e: ElemModel, env1: Seq<Seq<NsBinding>>) -> Option<Seq<char>> {
    match e.ns {
        None => Some(e.name),
        Some(u) => match env_lookup(env1, u) {
            Some(p) => if p.len() == 0 {
                Some(e.name)
            } else {
                Some(p + seq![':'] + e.name)
            },
            None => None,
        },
    }
}

/// The serialized form of one attribute, with its leading space. `None`
/// when its namespace is undeclared or resolves to the default prefix,
/// which XML forbids for attributes.
pub open spec fn ser_attr(a: AttrModel, env1: Seq<Seq<NsBinding>>) -> Option<Seq<char>> {
    match a.ns {
        None => Some(seq![' '] + a.name + seq!['=', '"'] + a.value + seq!['"']),
        Some(u) => match env_lookup(env1, u) {
            Some(p) => if p.len() == 0 {
                None
            } else {
                Some(seq![' '] + p + seq![':'] + a.name + seq!['=', '"'] + a.value + seq!['"'])
            },
            None => None,
        },
    }
}

/// The serialized attribute list, in attribute order.
pub open spec fn ser_attrs(attrs: Seq<AttrModel>, env1: Seq<Seq<NsBinding>>) -> Option<Seq<char>>
    decreases attrs.len(),
{
    if attrs.len() == 0 {
        Some(Seq::empty())
    } else {
        match (ser_attrs(attrs.drop_last(), env1), ser_attr(attrs.last(), env1)) {
            (Some(t), Some(h)) => Some(t + h),
            _ => None,
        }
    }
}

/// The text of the opening tag up to but excluding `>` or `/>`.
pub open spec fn ser_open_parts(e: ElemModel, env1: Seq<Seq<NsBinding>>) -> Option<Seq<char>> {
    match (qname_of(e, env1), ser_attrs(e.attrs, env1)) {
        (Some(q), Some(ats)) => Some(seq!['<'] + q + ats),
        _ => None,
    }
}

/// The serialized closing tag `</qname>`.
pub open spec fn ser_close_tag(e: ElemModel, env1: Seq<Seq<NsBinding>>) -> Option<Seq<char>> {
    match qname_of(e, env1) {
        Some(q) => Some(seq!['<', '/'] + q + seq!['>']),
        None => None,
    }
}

/// The full serialized form of an element in the given stack: self-closing
/// when childless, otherwise opening tag, children and closing tag.
pub open spec fn ser_elem(e: ElemModel, env: Seq<Seq<NsBinding>>) -> Option<Seq<char>>
    decreases e,
{
    let env1 = env_inside(e, env);
    match ser_open_parts(e, env1) {
        Some(open) => if e.children.len() == 0 {
            Some(open + seq!['/', '>'])
        } else {
            match (ser_nodes(e.children, env1), ser_close_tag(e, env1)) {
                (Some(body), Some(close)) => Some(open + seq!['>'] + body + close),
                _ => None,
            }
        },
        None => None,
    }
}

/// The serialized form of a node sequence, in document order.
pub open spec fn ser_nodes(s: Seq<NodeModel>, env1: Seq<Seq<NsBinding>>) -> Option<Seq<char>>
    decreases s,
{
    if s.len() == 0 {
        Some(Seq::empty())
    } else {
        match (ser_nodes(s.drop_last(), env1), ser_node(s.last(), env1)) {
            (Some(t), Some(h)) => Some(t + h),
            _ => None,
        }
    }
}

/// The serialized form of one node. Text is emitted as it stands; CDATA,
/// comments and processing instructions carry their delimiters.
pub open spec fn ser_node(n: NodeModel, env1: Seq<Seq<NsBinding>>) -> Option<Seq<char>>
    decreases n,
{
    match n {
        NodeModel::Elem(e) => ser_elem(e, env1),
        NodeModel::Text(t) => Some(t),
        NodeModel::CData(t) => Some(
            seq!['<', '!', '[', 'C', 'D', 'A', 'T', 'A', '['] + t + seq![']', ']', '>'],
        ),
        NodeModel::Comment(t) => Some(seq!['<', '!', '-', '-'] + t + seq!['-', '-', '>']),
        NodeModel::Pi(t) => Some(seq!['<', '?'] + t + seq!['?', '>']),
    }
}

} // verus!
