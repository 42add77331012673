//! Specification of the namespace-aware fragment parser.
//!
//! The parser reads a character sequence left to right. Each production
//! returns [`Parsed`]: the parsed value and the next index, `NeedMore` when
//! the input may continue past the end of the buffer, or `Reject` on
//! malformed input. Prefixes are resolved against a sequence of
//! prefix-to-URI bindings in which the binding added last wins.

use vstd::prelude::*;

use crate::xml::ser::xmlns_uri;
use crate::xml::{AttrModel, ElemModel, NodeModel};

verus! {

/// Outcome of a parsing production.
pub enum Parsed<T> {
    /// Parsed `T`, input continues at the index.
    Found(T, int),
    /// The buffer ended where the input may continue.
    NeedMore,
    /// Malformed input.
    Reject,
}

/// One prefix binding of the parser: prefix to namespace URI. The default
/// namespace is the binding of the empty prefix.
pub struct PrefixBinding {
    pub prefix: Seq<char>,
    pub uri: Seq<char>,
}

/// An attribute as it stands in the tag, its name not yet resolved.
pub struct AttrRaw {
    pub name: Seq<char>,
    pub value: Seq<char>,
}

/// XML whitespace.
pub open spec fn is_ws(c: char) -> bool {
    c == ' ' || c == '\t' || c == '\r' || c == '\n'
}

/// Characters a name may consist of: everything but whitespace and the
/// characters that delimit tags, attributes and values.
pub open spec fn is_name_char(c: char) -> bool {
    !is_ws(c) && c != '<' && c != '>' && c != '/' && c != '=' && c != '"' && c != '\'' && c != '!'
        && c != '?'
}

/// First index at or after `i` holding a non-whitespace character.
pub open spec fn scan_ws(s: Seq<char>, i: int) -> int
    decreases s.len() - i,
{
    if i < 0 || i >= s.len() {
        s.len() as int
    } else if is_ws(s[i]) {
        scan_ws(s, i + 1)
    } else {
        i
    }
}

/// First index at or after `i` holding a non-name character.
pub open spec fn scan_name(s: Seq<char>, i: int) -> int
    decreases s.len() - i,
{
    if i < 0 || i >= s.len() {
        s.len() as int
    } else if is_name_char(s[i]) {
        scan_name(s, i + 1)
    } else {
        i
    }
}

/// First index at or after `i` where `pat` occurs, the length of `s` when
/// it does not occur in full.
pub open spec fn scan_to(s: Seq<char>, i: int, pat: Seq<char>) -> int
    decreases s.len() - i,
{
    if i < 0 || i >= s.len() || i + pat.len() > s.len() {
        s.len() as int
    } else if s.subrange(i, i + pat.len() as int) == pat {
        i
    } else {
        scan_to(s, i + 1, pat)
    }
}

/// The index `j` when it lies past `i` and within the buffer, else the
/// next index. The productions recurse at bumped indices, which makes
/// progress evident; every parsed piece in fact advances the index within
/// bounds, so the bump never takes effect.
pub open spec fn bump(s: Seq<char>, i: int, j: int) -> int {
    if i < j <= s.len() {
        j
    } else if i + 1 <= s.len() {
        i + 1
    } else {
        s.len() as int
    }
}

/// A name: one or more name characters. Reaching the end of the buffer
/// means the name may continue beyond it.
pub open spec fn p_name(s: Seq<char>, i: int) -> Parsed<Seq<char>> {
    let j = scan_name(s, i);
    if j >= s.len() {
        Parsed::NeedMore
    } else if j == i {
        Parsed::Reject
    } else {
        Parsed::Found(s.subrange(i, j), j)
    }
}

/// One attribute: `name="value"` or `name='value'`, whitespace allowed
/// around `=`.
pub open spec fn p_attr(s: Seq<char>, i: int) -> Parsed<AttrRaw> {
    match p_name(s, i) {
        Parsed::Found(name, j) => {
            let k = scan_ws(s, j);
            if k >= s.len() {
                Parsed::NeedMore
            } else if s[k] != '=' {
                Parsed::Reject
            } else {
                let v = scan_ws(s, k + 1);
                if v >= s.len() {
                    Parsed::NeedMore
                } else if s[v] != '"' && s[v] != '\'' {
                    Parsed::Reject
                } else {
                    let q = s[v];
                    let e = scan_to(s, v + 1, seq![q]);
                    if e >= s.len() {
                        Parsed::NeedMore
                    } else {
                        Parsed::Found(AttrRaw { name, value: s.subrange(v + 1, e) }, e + 1)
                    }
                }
            }
        },
        Parsed::NeedMore => Parsed::NeedMore,
        Parsed::Reject => Parsed::Reject,
    }
}

/// The attribute list of a tag, ended by `>` or `/`. The returned index
/// points at the ending character.
pub open spec fn p_attr_list(s: Seq<char>, i: int) -> Parsed<Seq<AttrRaw>>
    decreases s.len() - i,
{
    if i < 0 {
        Parsed::Reject
    } else {
        let j = scan_ws(s, i);
        if j >= s.len() {
            Parsed::NeedMore
        } else if s[j] == '>' || s[j] == '/' {
            Parsed::Found(Seq::empty(), j)
        } else {
            match p_attr(s, j) {
                Parsed::Found(a, k) => {
                    match p_attr_list(s, bump(s, i, k)) {
                        Parsed::Found(rest, m) => Parsed::Found(seq![a] + rest, m),
                        Parsed::NeedMore => Parsed::NeedMore,
                        Parsed::Reject => Parsed::Reject,
                    }
                },
                Parsed::NeedMore => Parsed::NeedMore,
                Parsed::Reject => Parsed::Reject,
            }
        }
    }
}

/// First index of `:` in a name, or its length.
pub open spec fn colon_pos(n: Seq<char>) -> int {
    scan_to(n, 0, seq![':'])
}

/// A name split at its first colon: optional prefix and local part.
pub open spec fn split_qname(n: Seq<char>) -> (Option<Seq<char>>, Seq<char>) {
    let c = colon_pos(n);
    if c >= n.len() {
        (None, n)
    } else {
        (Some(n.take(c)), n.skip(c + 1))
    }
}

/// The URI bound to a prefix; the binding added last wins.
pub open spec fn penv_lookup(env: Seq<PrefixBinding>, p: Seq<char>) -> Option<Seq<char>>
    decreases env.len(),
{
    if env.len() == 0 {
        None
    } else if env.last().prefix == p {
        Some(env.last().uri)
    } else {
        penv_lookup(env.drop_last(), p)
    }
}

/// The bindings a raw attribute declares: `xmlns="U"` binds the empty
/// prefix, `xmlns:p="U"` binds `p`.
pub open spec fn raw_attr_decl(a: AttrRaw) -> Seq<PrefixBinding> {
    let (pfx, local) = split_qname(a.name);
    if pfx is None && a.name == "xmlns"@ {
        seq![PrefixBinding { prefix: Seq::empty(), uri: a.value }]
    } else if pfx == Some("xmlns"@) {
        seq![PrefixBinding { prefix: local, uri: a.value }]
    } else {
        Seq::empty()
    }
}

/// The bindings a raw attribute list declares, in attribute order.
pub open spec fn raw_decls(attrs: Seq<AttrRaw>) -> Seq<PrefixBinding>
    decreases attrs.len(),
{
    if attrs.len() == 0 {
        Seq::empty()
    } else {
        raw_decls(attrs.drop_last()) + raw_attr_decl(attrs.last())
    }
}

/// The namespace of an element name: its prefix's binding, or the default
/// namespace. An empty URI stands for no namespace. `None` when the prefix
/// is unbound.
pub open spec fn resolve_elem_ns(
    name: Seq<char>,
    env1: Seq<PrefixBinding>,
) -> Option<Option<Seq<char>>> {
    let (pfx, local) = split_qname(name);
    match pfx {
        None => match penv_lookup(env1, Seq::empty()) {
            None => Some(None),
            Some(u) => if u.len() == 0 {
                Some(None)
            } else {
                Some(Some(u))
            },
        },
        Some(p) => match penv_lookup(env1, p) {
            None => None,
            Some(u) => if u.len() == 0 {
                Some(None)
            } else {
                Some(Some(u))
            },
        },
    }
}

/// The local part of an element name.
pub open spec fn local_of(name: Seq<char>) -> Seq<char> {
    split_qname(name).1
}

/// One resolved attribute. An unprefixed attribute has no namespace;
/// `xmlns:p` declarations live in the XMLNS namespace; any other prefix
/// takes its binding. `None` when a prefix is unbound.
pub open spec fn resolve_attr(a: AttrRaw, env1: Seq<PrefixBinding>) -> Option<AttrModel> {
    let (pfx, local) = split_qname(a.name);
    match pfx {
        None => Some(AttrModel { name: a.name, ns: None, value: a.value }),
        Some(p) => if p == "xmlns"@ {
            Some(AttrModel { name: local, ns: Some(xmlns_uri()), value: a.value })
        } else {
            match penv_lookup(env1, p) {
                None => None,
                Some(u) => Some(AttrModel { name: local, ns: Some(u), value: a.value }),
            }
        },
    }
}

/// The resolved attribute list, `None` as soon as one attribute fails.
pub open spec fn resolve_attrs(
    attrs: Seq<AttrRaw>,
    env1: Seq<PrefixBinding>,
) -> Option<Seq<AttrModel>>
    decreases attrs.len(),
{
    if attrs.len() == 0 {
        Some(Seq::empty())
    } else {
        match (resolve_attrs(attrs.drop_last(), env1), resolve_attr(attrs.last(), env1)) {
            (Some(t), Some(a)) => Some(t.push(a)),
            _ => None,
        }
    }
}

/// A complete element at `i`: opening tag, children, closing tag whose
/// name echoes the opening one; or a self-closing tag.
pub open spec fn p_element(s: Seq<char>, i: int, env: Seq<PrefixBinding>) -> Parsed<ElemModel>
    decreases s.len() - i, 1int,
{
    if i < 0 || i >= s.len() {
        Parsed::NeedMore
    } else if s[i] != '<' {
        Parsed::Reject
    } else {
        match p_name(s, i + 1) {
            Parsed::Found(rawname, j) => {
                match p_attr_list(s, j) {
                    Parsed::Found(raws, k) => {
                        let env1 = env + raw_decls(raws);
                        match (resolve_elem_ns(rawname, env1), resolve_attrs(raws, env1)) {
                            (Some(ns), Some(attrs)) => {
                                if k < 0 || k >= s.len() {
                                    Parsed::Reject
                                } else if s[k] == '/' {
                                    if k + 1 >= s.len() {
                                        Parsed::NeedMore
                                    } else if s[k + 1] != '>' {
                                        Parsed::Reject
                                    } else {
                                        Parsed::Found(
                                            ElemModel {
                                                name: local_of(rawname),
                                                ns,
                                                attrs,
                                                children: Seq::empty(),
                                            },
                                            k + 2,
                                        )
                                    }
                                } else {
                                    // s[k] == '>' by p_attr_list
                                    match p_nodes(s, bump(s, i, k + 1), env1) {
                                        Parsed::Found(kids, m) => {
                                            match p_close_tag(s, m, rawname) {
                                                Parsed::Found(_, z) => Parsed::Found(
                                                    ElemModel {
                                                        name: local_of(rawname),
                                                        ns,
                                                        attrs,
                                                        children: kids,
                                                    },
                                                    z,
                                                ),
                                                Parsed::NeedMore => Parsed::NeedMore,
                                                Parsed::Reject => Parsed::Reject,
                                            }
                                        },
                                        Parsed::NeedMore => Parsed::NeedMore,
                                        Parsed::Reject => Parsed::Reject,
                                    }
                                }
                            },
                            _ => Parsed::Reject,
                        }
                    },
                    Parsed::NeedMore => Parsed::NeedMore,
                    Parsed::Reject => Parsed::Reject,
                }
            },
            Parsed::NeedMore => Parsed::NeedMore,
            Parsed::Reject => Parsed::Reject,
        }
    }
}

/// The children of an element, up to but excluding its closing tag.
pub open spec fn p_nodes(s: Seq<char>, i: int, env: Seq<PrefixBinding>) -> Parsed<Seq<NodeModel>>
    decreases s.len() - i, 2int,
{
    if i < 0 {
        Parsed::Reject
    } else if i >= s.len() {
        Parsed::NeedMore
    } else if s[i] == '<' {
        if i + 1 >= s.len() {
            Parsed::NeedMore
        } else if s[i + 1] == '/' {
            Parsed::Found(Seq::empty(), i)
        } else if s[i + 1] == '!' || s[i + 1] == '?' {
            match p_special(s, i) {
                Parsed::Found(node, j) => {
                    match p_nodes(s, bump(s, i, j), env) {
                        Parsed::Found(rest, m) => Parsed::Found(seq![node] + rest, m),
                        Parsed::NeedMore => Parsed::NeedMore,
                        Parsed::Reject => Parsed::Reject,
                    }
                },
                Parsed::NeedMore => Parsed::NeedMore,
                Parsed::Reject => Parsed::Reject,
            }
        } else {
            match p_element(s, i, env) {
                Parsed::Found(el, j) => {
                    match p_nodes(s, bump(s, i, j), env) {
                        Parsed::Found(rest, m) => Parsed::Found(
                            seq![NodeModel::Elem(el)] + rest,
                            m,
                        ),
                        Parsed::NeedMore => Parsed::NeedMore,
                        Parsed::Reject => Parsed::Reject,
                    }
                },
                Parsed::NeedMore => Parsed::NeedMore,
                Parsed::Reject => Parsed::Reject,
            }
        }
    } else {
        let j = scan_to(s, i, seq!['<']);
        if j >= s.len() {
            Parsed::NeedMore
        } else {
            match p_nodes(s, bump(s, i, j), env) {
                Parsed::Found(rest, m) => Parsed::Found(
                    seq![NodeModel::Text(s.subrange(i, j))] + rest,
                    m,
                ),
                Parsed::NeedMore => Parsed::NeedMore,
                Parsed::Reject => Parsed::Reject,
            }
        }
    }
}

/// A CDATA section, comment or processing instruction starting at `i`,
/// where `s[i] == '<'` and the next character is `!` or `?`.
pub open spec fn p_special(s: Seq<char>, i: int) -> Parsed<NodeModel> {
    if starts_with_at(s, "<![CDATA["@, i) {
        let e = scan_to(s, i + 9, "]]>"@);
        if e >= s.len() {
            Parsed::NeedMore
        } else {
            Parsed::Found(NodeModel::CData(s.subrange(i + 9, e)), e + 3)
        }
    } else if starts_with_at(s, "<!--"@, i) {
        let e = scan_to(s, i + 4, "-->"@);
        if e >= s.len() {
            Parsed::NeedMore
        } else {
            Parsed::Found(NodeModel::Comment(s.subrange(i + 4, e)), e + 3)
        }
    } else if starts_with_at(s, "<?"@, i) {
        let e = scan_to(s, i + 2, "?>"@);
        if e >= s.len() {
            Parsed::NeedMore
        } else {
            Parsed::Found(NodeModel::Pi(s.subrange(i + 2, e)), e + 2)
        }
    } else if i + 9 >= s.len() {
        // A partial `<![CDATA[` or `<!--` may still be underway.
        Parsed::NeedMore
    } else {
        Parsed::Reject
    }
}

/// Whether `pat` occurs at index `i` of `s` in full.
pub open spec fn starts_with_at(s: Seq<char>, pat: Seq<char>, i: int) -> bool {
    0 <= i && i + pat.len() <= s.len() && s.subrange(i, i + pat.len() as int) == pat
}

/// The closing tag `</name>` at `i`, whose name must echo `rawname`;
/// whitespace may precede `>`.
pub open spec fn p_close_tag(s: Seq<char>, i: int, rawname: Seq<char>) -> Parsed<()> {
    if i < 0 || i + 2 > s.len() {
        Parsed::NeedMore
    } else if s[i] != '<' || s[i + 1] != '/' {
        Parsed::Reject
    } else {
        match p_name(s, i + 2) {
            Parsed::Found(n, j) => {
                if n != rawname {
                    Parsed::Reject
                } else {
                    let k = scan_ws(s, j);
                    if k >= s.len() {
                        Parsed::NeedMore
                    } else if s[k] != '>' {
                        Parsed::Reject
                    } else {
                        Parsed::Found((), k + 1)
                    }
                }
            },
            Parsed::NeedMore => Parsed::NeedMore,
            Parsed::Reject => Parsed::Reject,
        }
    }
}

/// An opening tag alone: `<name attrs>`; used for the stream root, which
/// stays open. Yields the raw name, the raw attributes and the index past
/// `>`.
pub open spec fn p_open_tag(s: Seq<char>, i: int) -> Parsed<(Seq<char>, Seq<AttrRaw>)> {
    if i < 0 || i >= s.len() {
        Parsed::NeedMore
    } else if s[i] != '<' {
        Parsed::Reject
    } else {
        match p_name(s, i + 1) {
            Parsed::Found(rawname, j) => {
                match p_attr_list(s, j) {
                    Parsed::Found(raws, k) => {
                        if s[k] != '>' {
                            Parsed::Reject
                        } else {
                            Parsed::Found((rawname, raws), k + 1)
                        }
                    },
                    Parsed::NeedMore => Parsed::NeedMore,
                    Parsed::Reject => Parsed::Reject,
                }
            },
            Parsed::NeedMore => Parsed::NeedMore,
            Parsed::Reject => Parsed::Reject,
        }
    }
}

/// The scan stays between its start and the end of the buffer.
pub proof fn lemma_scan_to_bounds(s: Seq<char>, i: int, pat: Seq<char>)
    requires
        0 <= i <= s.len(),
    ensures
        i <= scan_to(s, i, pat) <= s.len(),
    decreases s.len() - i,
{
    if i < s.len() && i + pat.len() <= s.len() && s.subrange(i, i + pat.len() as int) != pat {
        lemma_scan_to_bounds(s, i + 1, pat);
    }
}

} // verus!
