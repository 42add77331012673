//! The codec law: parsing a serialized element tree yields the tree back.
//!
//! The law holds for well-formed trees: names made of name characters
//! without colons, attributes without namespace prefixes, text free of
//! markup, delimited sections free of their terminators, no two adjacent
//! text nodes, and an element namespace that always equals the default
//! namespace in scope. That is the fragment the engine emits: its elements
//! declare their namespaces with `xmlns` attributes.

use vstd::prelude::*;

use crate::xml::parse::{
    bump, is_name_char, is_ws, local_of, p_attr, p_attr_list, p_close_tag, p_element, p_name,
    p_nodes, p_special, penv_lookup, raw_attr_decl, raw_decls, resolve_attr, resolve_attrs,
    resolve_elem_ns, scan_name, scan_to, scan_ws, split_qname, starts_with_at, AttrRaw, Parsed,
    PrefixBinding,
};
use crate::xml::ser::{
    attr_decl, decl_frame, env_inside, env_lookup, frame_lookup, initial_env, qname_of, ser_attr,
    ser_attrs, ser_close_tag, ser_elem, ser_node, ser_nodes, ser_open_parts, xml_uri, xmlns_uri,
    NsBinding,
};
use crate::xml::{AttrModel, Element, ElemModel, NodeModel};

verus! {

/// The parser's initial bindings: the two reserved prefixes.
pub open spec fn initial_penv() -> Seq<PrefixBinding> {
    seq![
        PrefixBinding { prefix: "xml"@, uri: xml_uri() },
        PrefixBinding { prefix: "xmlns"@, uri: xmlns_uri() },
    ]
}

/// Whether `pat` occurs anywhere in `t`.
pub open spec fn has_sub(t: Seq<char>, pat: Seq<char>) -> bool {
    exists|j: int| starts_with_at(t, pat, j)
}

/// A name the round trip covers: nonempty name characters, no colon.
pub open spec fn wf_name(n: Seq<char>) -> bool {
    n.len() > 0 && forall|k: int| 0 <= k < n.len() ==> is_name_char(#[trigger] n[k]) && n[k] != ':'
}

/// Text the round trip covers: nonempty, no markup start.
pub open spec fn wf_text(t: Seq<char>) -> bool {
    t.len() > 0 && forall|k: int| 0 <= k < t.len() ==> #[trigger] t[k] != '<'
}

/// An attribute the round trip covers: unprefixed, quotable value.
pub open spec fn wf_attr(a: AttrModel) -> bool {
    a.ns is None && wf_name(a.name) && forall|k: int|
        0 <= k < a.value.len() ==> #[trigger] a.value[k] != '"'
}

/// The default namespace in scope below an element: its last `xmlns`
/// attribute decides, an empty value undeclares, no `xmlns` attribute
/// inherits.
pub open spec fn default_after(attrs: Seq<AttrModel>, d: Option<Seq<char>>) -> Option<Seq<char>>
    decreases attrs.len(),
{
    if attrs.len() == 0 {
        d
    } else {
        let a = attrs.last();
        if a.ns is None && a.name == "xmlns"@ {
            if a.value.len() == 0 {
                None
            } else {
                Some(a.value)
            }
        } else {
            default_after(attrs.drop_last(), d)
        }
    }
}

/// A tree the round trip covers, under the default namespace `d`.
pub open spec fn wf_elem(e: ElemModel, d: Option<Seq<char>>) -> bool
    decreases e, 0int,
{
    &&& wf_name(e.name)
    &&& forall|k: int| 0 <= k < e.attrs.len() ==> wf_attr(#[trigger] e.attrs[k])
    &&& e.ns == default_after(e.attrs, d)
    &&& wf_children(e.children, default_after(e.attrs, d))
}

/// Well-formed children: each node well-formed, no two adjacent text
/// nodes.
pub open spec fn wf_children(ch: Seq<NodeModel>, d: Option<Seq<char>>) -> bool
    decreases ch, 2int,
{
    &&& forall|k: int| 0 <= k < ch.len() ==> wf_node(#[trigger] ch[k], d)
    &&& forall|k: int|
        0 <= k < ch.len() - 1 ==> !((#[trigger] ch[k]) is Text && ch[k + 1] is Text)
}

/// A well-formed node under default namespace `d`.
pub open spec fn wf_node(n: NodeModel, d: Option<Seq<char>>) -> bool
    decreases n, 1int,
{
    match n {
        NodeModel::Elem(e) => wf_elem(e, d),
        NodeModel::Text(t) => wf_text(t),
        NodeModel::CData(t) => !has_sub(t, "]]>"@),
        NodeModel::Comment(t) => !has_sub(t, "-->"@),
        NodeModel::Pi(t) => !has_sub(t, "?>"@),
    }
}

/// The writer stack and the parser bindings agree on the default
/// namespace `d`, and the stack resolves `d` to the default prefix.
pub open spec fn envs_agree(
    env_w: Seq<Seq<NsBinding>>,
    env_p: Seq<PrefixBinding>,
    d: Option<Seq<char>>,
) -> bool {
    &&& match penv_lookup(env_p, Seq::empty()) {
        None => d is None,
        Some(u) => if u.len() == 0 {
            d is None
        } else {
            d == Some(u)
        },
    }
    &&& match d {
        Some(u) => env_lookup(env_w, u) == Some(Seq::<char>::empty()),
        None => true,
    }
}

/// The raw, unresolved form of a well-formed attribute list.
pub open spec fn raws_of(attrs: Seq<AttrModel>) -> Seq<AttrRaw> {
    Seq::new(attrs.len(), |i: int| AttrRaw { name: attrs[i].name, value: attrs[i].value })
}

// ---------------------------------------------------------------------
// Scanning lemmas.
// ---------------------------------------------------------------------

/// Scanning a name placed at `i` with a terminator right behind it stops
/// exactly at its end.
proof fn lemma_scan_name_exact(s: Seq<char>, i: int, n: Seq<char>)
    requires
        0 <= i,
        i + n.len() < s.len(),
        forall|k: int| 0 <= k < n.len() ==> is_name_char(#[trigger] n[k]),
        forall|k: int| 0 <= k < n.len() ==> s[i + k] == n[k],
        !is_name_char(s[i + n.len()]),
    ensures
        scan_name(s, i) == i + n.len(),
    decreases n.len(),
{
    if n.len() == 0 {
    } else {
        assert(s[i] == n[0]);
        lemma_scan_name_exact(s, i + 1, n.drop_first());
    }
}

/// Whether the copy of `pat` shifted right by `r` agrees with it where
/// they overlap.
pub open spec fn self_overlap_at(pat: Seq<char>, r: int) -> bool {
    forall|m: int| r <= m < pat.len() ==> #[trigger] pat[m] == pat[m - r]
}

/// `pat` does not overlap itself: no strictly shifted copy agrees with it.
pub open spec fn no_self_overlap(pat: Seq<char>) -> bool {
    forall|r: int| 1 <= r < pat.len() ==> !#[trigger] self_overlap_at(pat, r)
}

/// Scanning for `pat` over a stretch `t` free of it, with `pat` right
/// behind the stretch, stops exactly at the boundary; `pat` must not
/// overlap itself.
proof fn lemma_scan_to_exact(s: Seq<char>, i: int, pat: Seq<char>, tlen: int)
    requires
        0 <= i,
        0 <= tlen,
        pat.len() > 0,
        no_self_overlap(pat),
        i + tlen + pat.len() <= s.len(),
        starts_with_at(s, pat, i + tlen),
        forall|j: int| i <= j && j + pat.len() <= i + tlen ==> !starts_with_at(s, pat, j),
    ensures
        scan_to(s, i, pat) == i + tlen,
    decreases tlen,
{
    if tlen == 0 {
        assert(s.subrange(i, i + pat.len() as int) == pat);
    } else {
        assert(!starts_with_at(s, pat, i)) by {
            if starts_with_at(s, pat, i) {
                // The copy at `i` and the one at `i + tlen` would overlap
                // or stand apart; apart is excluded by the premise, an
                // overlap contradicts no_self_overlap.
                if i + pat.len() <= i + tlen {
                } else {
                    let r = tlen;
                    assert(1 <= r < pat.len());
                    assert(!self_overlap_at(pat, r));
                    let m = choose|m: int| r <= m < pat.len() && !(#[trigger] pat[m] == pat[m - r]);
                    assert(s.subrange(i, i + pat.len() as int) == pat);
                    assert(s[i + m] == pat[m]);
                    assert(s.subrange(i + tlen, i + tlen + pat.len() as int) == pat);
                    assert(s[i + tlen + (m - r)] == pat[m - r]);
                    assert(i + m == i + tlen + (m - r));
                }
            }
        }
        assert(s.subrange(i, i + pat.len() as int) != pat) by {
            if s.subrange(i, i + pat.len() as int) == pat {
                assert(starts_with_at(s, pat, i));
            }
        }
        lemma_scan_to_exact(s, i + 1, pat, tlen - 1);
    }
}

/// Scanning for an absent pattern runs to the end.
proof fn lemma_scan_to_absent(s: Seq<char>, i: int, pat: Seq<char>)
    requires
        forall|j: int| i <= j ==> !starts_with_at(s, pat, j),
    ensures
        scan_to(s, i, pat) == s.len(),
    decreases s.len() - i,
{
    if 0 <= i && i < s.len() && i + pat.len() <= s.len() {
        assert(!starts_with_at(s, pat, i));
        lemma_scan_to_absent(s, i + 1, pat);
    }
}

/// A name free of colons splits into no prefix and itself.
proof fn lemma_split_no_colon(n: Seq<char>)
    requires
        forall|k: int| 0 <= k < n.len() ==> #[trigger] n[k] != ':',
    ensures
        split_qname(n) == (None::<Seq<char>>, n),
    decreases n.len(),
{
    assert forall|j: int| 0 <= j implies !starts_with_at(n, seq![':'], j) by {
        if starts_with_at(n, seq![':'], j) {
            assert(n.subrange(j, j + 1)[0] == ':');
            assert(n[j] == ':');
        }
    }
    lemma_scan_to_absent(n, 0, seq![':']);
}

/// The CDATA terminator does not overlap itself.
proof fn lemma_no_overlap_cdata_end()
    ensures
        no_self_overlap("]]>"@),
{
    reveal_strlit("]]>");
    let pat = "]]>"@;
    assert forall|r: int| 1 <= r < pat.len() implies !self_overlap_at(pat, r) by {
        assert(pat[2] == '>' && pat[2 - r] == ']');
        assert(!(pat[2] == pat[2 - r]));
    }
}

/// The comment terminator does not overlap itself.
proof fn lemma_no_overlap_comment_end()
    ensures
        no_self_overlap("-->"@),
{
    reveal_strlit("-->");
    let pat = "-->"@;
    assert forall|r: int| 1 <= r < pat.len() implies !self_overlap_at(pat, r) by {
        assert(pat[2] == '>' && pat[2 - r] == '-');
        assert(!(pat[2] == pat[2 - r]));
    }
}

/// The processing-instruction terminator does not overlap itself.
proof fn lemma_no_overlap_pi_end()
    ensures
        no_self_overlap("?>"@),
{
    reveal_strlit("?>");
    let pat = "?>"@;
    assert forall|r: int| 1 <= r < pat.len() implies !self_overlap_at(pat, r) by {
        assert(pat[1] == '>' && pat[1 - r] == '?');
        assert(!(pat[1] == pat[1 - r]));
    }
}

// ---------------------------------------------------------------------
// Unfolding the serializer from the front.
// ---------------------------------------------------------------------

/// `ser_attrs` unfolded at the first attribute.
proof fn lemma_ser_attrs_cons(attrs: Seq<AttrModel>, env1: Seq<Seq<NsBinding>>)
    requires
        attrs.len() > 0,
    ensures
        ser_attrs(attrs, env1) == match (
            ser_attr(attrs[0], env1),
            ser_attrs(attrs.drop_first(), env1),
        ) {
            (Some(h), Some(t)) => Some(h + t),
            _ => None::<Seq<char>>,
        },
    decreases attrs.len(),
{
    if attrs.len() == 1 {
        assert(attrs.drop_last() =~= Seq::<AttrModel>::empty());
        assert(attrs.drop_first() =~= Seq::<AttrModel>::empty());
        assert(attrs.last() == attrs[0]);
        match ser_attr(attrs[0], env1) {
            Some(h) => {
                assert(Seq::<char>::empty() + h =~= h);
                assert(h + Seq::<char>::empty() =~= h);
            },
            None => {},
        }
    } else {
        let front = attrs.drop_last();
        lemma_ser_attrs_cons(front, env1);
        assert(front[0] == attrs[0]);
        assert(front.drop_first() =~= attrs.drop_first().drop_last());
        assert(attrs.drop_first().last() == attrs.last());
        assert(attrs.drop_first().len() > 0);
        match (ser_attr(attrs[0], env1), ser_attrs(attrs.drop_first().drop_last(), env1), ser_attr(
            attrs.last(),
            env1,
        )) {
            (Some(h), Some(t), Some(z)) => {
                assert((h + t) + z =~= h + (t + z));
            },
            _ => {},
        }
    }
}

/// `ser_nodes` unfolded at the first node.
proof fn lemma_ser_nodes_cons(ch: Seq<NodeModel>, env1: Seq<Seq<NsBinding>>)
    requires
        ch.len() > 0,
    ensures
        ser_nodes(ch, env1) == match (ser_node(ch[0], env1), ser_nodes(ch.drop_first(), env1)) {
            (Some(h), Some(t)) => Some(h + t),
            _ => None::<Seq<char>>,
        },
    decreases ch.len(),
{
    if ch.len() == 1 {
        assert(ch.drop_last() =~= Seq::<NodeModel>::empty());
        assert(ch.drop_first() =~= Seq::<NodeModel>::empty());
        assert(ch.last() == ch[0]);
        match ser_node(ch[0], env1) {
            Some(h) => {
                assert(Seq::<char>::empty() + h =~= h);
                assert(h + Seq::<char>::empty() =~= h);
            },
            None => {},
        }
    } else {
        let front = ch.drop_last();
        lemma_ser_nodes_cons(front, env1);
        assert(front[0] == ch[0]);
        assert(front.drop_first() =~= ch.drop_first().drop_last());
        assert(ch.drop_first().last() == ch.last());
        assert(ch.drop_first().len() > 0);
        match (ser_node(ch[0], env1), ser_nodes(ch.drop_first().drop_last(), env1), ser_node(
            ch.last(),
            env1,
        )) {
            (Some(h), Some(t), Some(z)) => {
                assert((h + t) + z =~= h + (t + z));
            },
            _ => {},
        }
    }
}

// ---------------------------------------------------------------------
// Environment lemmas.
// ---------------------------------------------------------------------

/// Looking a prefix up in concatenated bindings searches the back part
/// first.
proof fn lemma_penv_concat(a: Seq<PrefixBinding>, b: Seq<PrefixBinding>, p: Seq<char>)
    ensures
        penv_lookup(a + b, p) == match penv_lookup(b, p) {
            Some(u) => Some(u),
            None => penv_lookup(a, p),
        },
    decreases b.len(),
{
    if b.len() == 0 {
        assert(a + b =~= a);
    } else {
        assert((a + b).last() == b.last());
        assert((a + b).drop_last() =~= a + b.drop_last());
        lemma_penv_concat(a, b.drop_last(), p);
    }
}

/// Looking a URI up in a concatenated frame searches the back part first.
proof fn lemma_frame_concat(a: Seq<NsBinding>, b: Seq<NsBinding>, u: Seq<char>)
    ensures
        frame_lookup(a + b, u) == match frame_lookup(b, u) {
            Some(p) => Some(p),
            None => frame_lookup(a, u),
        },
    decreases b.len(),
{
    if b.len() == 0 {
        assert(a + b =~= a);
    } else {
        assert((a + b).last() == b.last());
        assert((a + b).drop_last() =~= a + b.drop_last());
        lemma_frame_concat(a, b.drop_last(), u);
    }
}

/// Looking a URI up in a pushed stack searches the new frame first.
proof fn lemma_env_push(env: Seq<Seq<NsBinding>>, f: Seq<NsBinding>, u: Seq<char>)
    ensures
        env_lookup(env.push(f), u) == match frame_lookup(f, u) {
            Some(p) => Some(p),
            None => env_lookup(env, u),
        },
{
    assert(env.push(f).last() == f);
    assert(env.push(f).drop_last() =~= env);
}

/// Pushing the frame an attribute list declares keeps the two sides
/// agreeing, under the default namespace the list leaves in scope.
proof fn lemma_envs_agree_step(
    attrs: Seq<AttrModel>,
    env_w: Seq<Seq<NsBinding>>,
    env_p: Seq<PrefixBinding>,
    d: Option<Seq<char>>,
)
    requires
        forall|k: int| 0 <= k < attrs.len() ==> wf_attr(#[trigger] attrs[k]),
        envs_agree(env_w, env_p, d),
    ensures
        envs_agree(
            env_w.push(decl_frame(attrs)),
            env_p + raw_decls(raws_of(attrs)),
            default_after(attrs, d),
        ),
    decreases attrs.len(),
{
    reveal_strlit("xmlns");
    let d2 = default_after(attrs, d);
    let f = decl_frame(attrs);
    let r = raw_decls(raws_of(attrs));
    if attrs.len() == 0 {
        assert(f =~= Seq::<NsBinding>::empty());
        assert(raws_of(attrs).len() == 0);
        assert(raws_of(attrs) =~= Seq::<AttrRaw>::empty());
        assert(r =~= Seq::<PrefixBinding>::empty());
        assert(env_p + r =~= env_p);
        lemma_env_push(env_w, f, match d {
            Some(u) => u,
            None => Seq::empty(),
        });
        match d {
            Some(u) => {
                lemma_env_push(env_w, f, u);
            },
            None => {},
        }
        lemma_penv_concat(env_p, r, Seq::empty());
    } else {
        let front = attrs.drop_last();
        let a = attrs.last();
        assert(raws_of(attrs).drop_last() =~= raws_of(front));
        assert(raws_of(attrs).last() == AttrRaw { name: a.name, value: a.value });
        let ra = raws_of(attrs).last();
        assert(wf_attr(a));
        lemma_split_no_colon(a.name);
        assert(f == decl_frame(front) + attr_decl(a));
        assert(r == raw_decls(raws_of(front)) + raw_attr_decl(ra));
        lemma_envs_agree_step(front, env_w, env_p, d);
        if a.name == "xmlns"@ {
            assert(attr_decl(a) =~= seq![NsBinding { uri: a.value, prefix: Seq::empty() }]);
            assert(raw_attr_decl(ra) =~= seq![
                PrefixBinding { prefix: Seq::empty(), uri: a.value },
            ]);
            // Parser side: the new binding of the empty prefix wins.
            lemma_penv_concat(env_p, r, Seq::empty());
            assert(penv_lookup(r, Seq::empty()) == Some(a.value)) by {
                lemma_penv_concat(raw_decls(raws_of(front)), raw_attr_decl(ra), Seq::empty());
                assert(raw_attr_decl(ra).last() == PrefixBinding {
                    prefix: Seq::empty(),
                    uri: a.value,
                });
            }
            // Writer side: the new binding of the URI wins.
            if a.value.len() == 0 {
                assert(d2 is None);
            } else {
                assert(d2 == Some(a.value));
                lemma_env_push(env_w, f, a.value);
                lemma_frame_concat(decl_frame(front), attr_decl(a), a.value);
                assert(frame_lookup(attr_decl(a), a.value) == Some(Seq::<char>::empty()));
            }
        } else {
            assert(attr_decl(a) =~= Seq::<NsBinding>::empty());
            assert(raw_attr_decl(ra) =~= Seq::<PrefixBinding>::empty());
            assert(f =~= decl_frame(front));
            assert(r =~= raw_decls(raws_of(front)));
            assert(d2 == default_after(front, d));
        }
    }
}

// ---------------------------------------------------------------------
// Serializability of well-formed trees.
// ---------------------------------------------------------------------

/// A well-formed element resolves its name to its bare local name.
proof fn lemma_qname_wf(
    e: ElemModel,
    env_w1: Seq<Seq<NsBinding>>,
    env_p1: Seq<PrefixBinding>,
    d: Option<Seq<char>>,
)
    requires
        e.ns == d,
        envs_agree(env_w1, env_p1, d),
    ensures
        qname_of(e, env_w1) == Some(e.name),
{
}

/// The serialized form of a well-formed attribute.
proof fn lemma_ser_attr_shape(a: AttrModel, env1: Seq<Seq<NsBinding>>)
    requires
        wf_attr(a),
    ensures
        ser_attr(a, env1) == Some(
            seq![' '] + a.name + seq!['=', '"'] + a.value + seq!['"'],
        ),
{
}

/// A well-formed attribute list always serializes.
proof fn lemma_ser_attrs_some(attrs: Seq<AttrModel>, env1: Seq<Seq<NsBinding>>)
    requires
        forall|k: int| 0 <= k < attrs.len() ==> wf_attr(#[trigger] attrs[k]),
    ensures
        ser_attrs(attrs, env1) is Some,
    decreases attrs.len(),
{
    if attrs.len() > 0 {
        lemma_ser_attrs_some(attrs.drop_last(), env1);
        lemma_ser_attr_shape(attrs.last(), env1);
    }
}

/// A well-formed element always serializes in an agreeing stack.
proof fn lemma_ser_elem_some(
    e: ElemModel,
    env_w: Seq<Seq<NsBinding>>,
    env_p: Seq<PrefixBinding>,
    d: Option<Seq<char>>,
)
    requires
        wf_elem(e, d),
        envs_agree(env_w, env_p, d),
    ensures
        ser_elem(e, env_w) is Some,
    decreases e, 0int,
{
    let d2 = default_after(e.attrs, d);
    let env_w1 = env_inside(e, env_w);
    let env_p1 = env_p + raw_decls(raws_of(e.attrs));
    lemma_envs_agree_step(e.attrs, env_w, env_p, d);
    lemma_qname_wf(e, env_w1, env_p1, d2);
    lemma_ser_attrs_some(e.attrs, env_w1);
    if e.children.len() > 0 {
        assert(decreases_to!(e => e.children));
        lemma_ser_nodes_some(e.children, env_w1, env_p1, d2);
    }
}

/// Well-formed children always serialize in an agreeing stack.
#[verifier::rlimit(60)]
proof fn lemma_ser_nodes_some(
    ch: Seq<NodeModel>,
    env_w1: Seq<Seq<NsBinding>>,
    env_p1: Seq<PrefixBinding>,
    d: Option<Seq<char>>,
)
    requires
        wf_children(ch, d),
        envs_agree(env_w1, env_p1, d),
    ensures
        ser_nodes(ch, env_w1) is Some,
    decreases ch, 1int,
{
    if ch.len() > 0 {
        assert forall|k: int| 0 <= k < ch.drop_last().len() implies wf_node(
            #[trigger] ch.drop_last()[k],
            d,
        ) by {
            assert(ch.drop_last()[k] == ch[k]);
        }
        assert forall|k: int| 0 <= k < ch.drop_last().len() - 1 implies !((
        #[trigger] ch.drop_last()[k]) is Text && ch.drop_last()[k + 1] is Text) by {
            assert(ch.drop_last()[k] == ch[k]);
            assert(ch.drop_last()[k + 1] == ch[k + 1]);
        }
        lemma_ser_nodes_some(ch.drop_last(), env_w1, env_p1, d);
        let n = ch.last();
        assert(wf_node(n, d));
        match n {
            NodeModel::Elem(el) => {
                assert(decreases_to!(ch => ch[ch.len() - 1]));
                assert(decreases_to!(ch[ch.len() - 1] => el));
                lemma_ser_elem_some(el, env_w1, env_p1, d);
                assert(ser_node(n, env_w1) == ser_elem(el, env_w1));
            },
            NodeModel::Text(t) => {
                assert(ser_node(n, env_w1) is Some);
            },
            NodeModel::CData(t) => {
                assert(ser_node(n, env_w1) is Some);
            },
            NodeModel::Comment(t) => {
                assert(ser_node(n, env_w1) is Some);
            },
            NodeModel::Pi(t) => {
                assert(ser_node(n, env_w1) is Some);
            },
        }
        assert(ser_node(ch.last(), env_w1) is Some);
        assert(ser_nodes(ch, env_w1) is Some);
    }
}

// ---------------------------------------------------------------------
// Parsing back what the writer emitted.
// ---------------------------------------------------------------------

/// Parsing the serialized attribute list finds the raw attributes and
/// stops at the tag-ending character.
proof fn lemma_attr_list_rt(
    attrs: Seq<AttrModel>,
    env1: Seq<Seq<NsBinding>>,
    ats: Seq<char>,
    s: Seq<char>,
    i: int,
)
    requires
        forall|k: int| 0 <= k < attrs.len() ==> wf_attr(#[trigger] attrs[k]),
        ser_attrs(attrs, env1) == Some(ats),
        starts_with_at(s, ats, i),
        i + ats.len() < s.len(),
        s[i + ats.len()] == '/' || s[i + ats.len()] == '>',
    ensures
        p_attr_list(s, i) == Parsed::Found(raws_of(attrs), i + ats.len()),
    decreases attrs.len(),
{
    if attrs.len() == 0 {
        assert(ats.len() == 0);
        assert(!is_ws(s[i]));
        assert(raws_of(attrs) =~= Seq::<AttrRaw>::empty());
    } else {
        let a = attrs[0];
        lemma_ser_attrs_cons(attrs, env1);
        lemma_ser_attr_shape(a, env1);
        let h = seq![' '] + a.name + seq!['=', '"'] + a.value + seq!['"'];
        let t = match ser_attrs(attrs.drop_first(), env1) {
            Some(t) => t,
            None => Seq::empty(),
        };
        assert(ser_attrs(attrs.drop_first(), env1) is Some) by {
            assert(forall|k: int|
                0 <= k < attrs.drop_first().len() ==> wf_attr(
                    #[trigger] attrs.drop_first()[k],
                ));
            lemma_ser_attrs_some(attrs.drop_first(), env1);
        }
        assert(ats == h + t);
        let nl = a.name.len() as int;
        let vl = a.value.len() as int;
        let hl = 1 + nl + 2 + vl + 1;
        assert(h.len() == hl);
        // The characters of the serialized attribute, read off the input.
        assert(forall|m: int| 0 <= m < ats.len() ==> s[i + m] == #[trigger] ats[m]) by {
            assert(s.subrange(i, i + ats.len() as int) == ats);
            assert(forall|m: int|
                0 <= m < ats.len() ==> #[trigger] s.subrange(i, i + ats.len() as int)[m] == s[i
                    + m]);
        }
        assert(forall|m: int| 0 <= m < hl ==> ats[m] == h[m]);
        assert(h[0] == ' ');
        assert(forall|m: int| 0 <= m < nl ==> h[1 + m] == a.name[m]);
        assert(h[1 + nl] == '=');
        assert(h[1 + nl + 1] == '"');
        assert(forall|m: int| 0 <= m < vl ==> h[1 + nl + 2 + m] == a.value[m]);
        assert(h[1 + nl + 2 + vl] == '"');

        // Whitespace before the attribute name.
        assert(s[i] == ' ');
        assert(is_name_char(s[i + 1])) by {
            assert(a.name[0] == s[i + 1]);
        }
        assert(scan_ws(s, i + 1) == i + 1);
        assert(scan_ws(s, i) == i + 1);

        // The name, terminated by `=`.
        assert(s[i + 1 + nl] == '=');
        lemma_scan_name_exact(s, i + 1, a.name);
        let j = i + 1 + nl;
        assert(p_name(s, i + 1) == Parsed::<Seq<char>>::Found(s.subrange(i + 1, j), j));
        assert(s.subrange(i + 1, j) =~= a.name);

        // `="` and the value, terminated by the closing quote.
        assert(scan_ws(s, j) == j);
        assert(s[j + 1] == '"');
        assert(scan_ws(s, j + 1) == j + 1);
        assert(starts_with_at(s, seq!['"'], j + 2 + vl)) by {
            assert(s[j + 2 + vl] == '"');
            assert(s.subrange(j + 2 + vl, j + 2 + vl + 1) =~= seq!['"']);
        }
        assert forall|jj: int| j + 2 <= jj && jj + 1 <= j + 2 + vl implies !starts_with_at(
            s,
            seq!['"'],
            jj,
        ) by {
            assert(s[jj] == a.value[jj - (j + 2)]);
            if starts_with_at(s, seq!['"'], jj) {
                assert(s.subrange(jj, jj + 1)[0] == '"');
            }
        }
        lemma_scan_to_exact(s, j + 2, seq!['"'], vl);
        let e = j + 2 + vl;
        assert(s.subrange(j + 2, e) =~= a.value);
        assert(p_attr(s, i + 1) == Parsed::<AttrRaw>::Found(
            AttrRaw { name: a.name, value: a.value },
            e + 1,
        ));

        // The rest of the list.
        assert(e + 1 == i + hl);
        assert(bump(s, i, e + 1) == e + 1);
        assert(starts_with_at(s, t, i + hl)) by {
            assert(s.subrange(i + hl, i + hl + t.len() as int) =~= t) by {
                assert(forall|m: int| 0 <= m < t.len() ==> ats[hl + m] == #[trigger] t[m]);
                assert(forall|m: int|
                    0 <= m < t.len() ==> #[trigger] s.subrange(i + hl, i + hl + t.len() as int)[m]
                        == s[i + hl + m]);
            }
        }
        assert(forall|k: int|
            0 <= k < attrs.drop_first().len() ==> wf_attr(#[trigger] attrs.drop_first()[k]));
        lemma_attr_list_rt(attrs.drop_first(), env1, t, s, i + hl);
        assert(p_attr_list(s, i) == Parsed::<Seq<AttrRaw>>::Found(
            seq![AttrRaw { name: a.name, value: a.value }] + raws_of(attrs.drop_first()),
            i + ats.len(),
        ));
        assert(seq![AttrRaw { name: a.name, value: a.value }] + raws_of(attrs.drop_first())
            =~= raws_of(attrs));
    }
}

/// The characters of an embedded piece, read off the surrounding input.
proof fn lemma_chars_at(s: Seq<char>, x: Seq<char>, i: int)
    requires
        starts_with_at(s, x, i),
    ensures
        forall|m: int| 0 <= m < x.len() ==> s[i + m] == #[trigger] x[m],
{
    assert(s.subrange(i, i + x.len() as int) == x);
    assert forall|m: int| 0 <= m < x.len() implies s[i + m] == #[trigger] x[m] by {
        assert(s.subrange(i, i + x.len() as int)[m] == s[i + m]);
    }
}

/// A piece whose characters all stand in the input is embedded there.
proof fn lemma_starts_with_from_chars(s: Seq<char>, x: Seq<char>, i: int)
    requires
        0 <= i,
        i + x.len() <= s.len(),
        forall|m: int| 0 <= m < x.len() ==> s[i + m] == #[trigger] x[m],
    ensures
        starts_with_at(s, x, i),
{
    assert(s.subrange(i, i + x.len() as int) =~= x) by {
        assert(forall|m: int|
            0 <= m < x.len() ==> #[trigger] s.subrange(i, i + x.len() as int)[m] == s[i + m]);
    }
}

/// Resolving the raw form of well-formed attributes gives them back.
proof fn lemma_resolve_attrs_wf(attrs: Seq<AttrModel>, env1: Seq<PrefixBinding>)
    requires
        forall|k: int| 0 <= k < attrs.len() ==> wf_attr(#[trigger] attrs[k]),
    ensures
        resolve_attrs(raws_of(attrs), env1) == Some(attrs),
    decreases attrs.len(),
{
    if attrs.len() == 0 {
        assert(raws_of(attrs).len() == 0);
        assert(resolve_attrs(raws_of(attrs), env1) == Some(Seq::<AttrModel>::empty()));
        assert(Seq::<AttrModel>::empty() =~= attrs);
    } else {
        assert(raws_of(attrs).drop_last() =~= raws_of(attrs.drop_last()));
        lemma_resolve_attrs_wf(attrs.drop_last(), env1);
        let a = attrs.last();
        let ra = raws_of(attrs).last();
        assert(wf_attr(a));
        assert(ra == AttrRaw { name: a.name, value: a.value });
        lemma_split_no_colon(a.name);
        assert(resolve_attr(ra, env1) == Some(
            AttrModel { name: a.name, ns: None, value: a.value },
        ));
        assert(AttrModel { name: a.name, ns: None, value: a.value } =~= a);
        assert(attrs.drop_last().push(a) =~= attrs);
    }
}

/// The serialized form of a well-formed node other than text starts with
/// a markup opener.
proof fn lemma_ser_node_first(
    n: NodeModel,
    env_w1: Seq<Seq<NsBinding>>,
    env_p1: Seq<PrefixBinding>,
    d: Option<Seq<char>>,
    h: Seq<char>,
)
    requires
        wf_node(n, d),
        envs_agree(env_w1, env_p1, d),
        !(n is Text),
        ser_node(n, env_w1) == Some(h),
    ensures
        h.len() >= 2,
        h[0] == '<',
        n matches NodeModel::Elem(el) ==> h.len() > 2 && is_name_char(h[1]),
        n matches NodeModel::CData(_) ==> h[1] == '!',
        n matches NodeModel::Comment(_) ==> h[1] == '!',
        n matches NodeModel::Pi(_) ==> h[1] == '?',
{
    match n {
        NodeModel::Elem(el) => {
            let env_w2 = env_inside(el, env_w1);
            let env_p2 = env_p1 + raw_decls(raws_of(el.attrs));
            lemma_envs_agree_step(el.attrs, env_w1, env_p1, d);
            lemma_qname_wf(el, env_w2, env_p2, default_after(el.attrs, d));
            let open = match ser_open_parts(el, env_w2) {
                Some(o) => o,
                None => Seq::empty(),
            };
            assert(h[0] == open[0]);
            assert(h[1] == open[1]);
            assert(open[1] == el.name[0]);
        },
        _ => {},
    }
}

/// Parsing the serialized form of a well-formed element, embedded at `i`,
/// finds the element and stops right after its closing tag.
#[verifier::rlimit(100)]
proof fn lemma_elem_rt(
    e: ElemModel,
    env_w: Seq<Seq<NsBinding>>,
    env_p: Seq<PrefixBinding>,
    d: Option<Seq<char>>,
    ss: Seq<char>,
    s: Seq<char>,
    i: int,
)
    requires
        wf_elem(e, d),
        envs_agree(env_w, env_p, d),
        ser_elem(e, env_w) == Some(ss),
        starts_with_at(s, ss, i),
    ensures
        p_element(s, i, env_p) == Parsed::Found(e, i + ss.len()),
    decreases e, 0int,
{
    let d2 = default_after(e.attrs, d);
    let env_w1 = env_inside(e, env_w);
    let env_p1 = env_p + raw_decls(raws_of(e.attrs));
    lemma_envs_agree_step(e.attrs, env_w, env_p, d);
    lemma_qname_wf(e, env_w1, env_p1, d2);
    lemma_ser_attrs_some(e.attrs, env_w1);
    let ats = match ser_attrs(e.attrs, env_w1) {
        Some(x) => x,
        None => Seq::empty(),
    };
    assert(ser_open_parts(e, env_w1) == Some(seq!['<'] + e.name + ats));
    let open = seq!['<'] + e.name + ats;
    let nl = e.name.len() as int;
    lemma_chars_at(s, ss, i);
    lemma_split_no_colon(e.name);

    // The name after `<`, terminated by a space, `/` or `>`.
    assert(ss[0] == '<');
    assert(s[i] == ss[0]);
    assert(forall|m: int| 0 <= m < nl ==> s[i + 1 + m] == #[trigger] e.name[m]) by {
        assert(forall|m: int| 0 <= m < nl ==> open[1 + m] == #[trigger] e.name[m]);
        assert(forall|m: int| 0 <= m < nl ==> ss[1 + m] == #[trigger] open[1 + m]);
    }
    assert(!is_name_char(s[i + 1 + nl]) && s[i + 1 + nl] != '<') by {
        if e.attrs.len() > 0 {
            lemma_ser_attrs_cons(e.attrs, env_w1);
            lemma_ser_attr_shape(e.attrs[0], env_w1);
            assert(ats[0] == ' ');
            assert(open[1 + nl] == ats[0]);
            assert(ss[1 + nl] == open[1 + nl]);
        } else {
            assert(ats.len() == 0);
            assert(ss[1 + nl] == '/' || ss[1 + nl] == '>');
        }
    }
    lemma_scan_name_exact(s, i + 1, e.name);
    let j = i + 1 + nl;
    assert(s.subrange(i + 1, j) =~= e.name);
    assert(p_name(s, i + 1) == Parsed::<Seq<char>>::Found(e.name, j));

    // The attribute list, ending at `/` or `>`.
    let k = j + ats.len() as int;
    assert(starts_with_at(s, ats, j)) by {
        assert forall|m: int| 0 <= m < ats.len() implies s[j + m] == #[trigger] ats[m] by {
            assert(ss[1 + nl + m] == ats[m]);
            assert(s[i + (1 + nl + m)] == ss[1 + nl + m]);
        }
        lemma_starts_with_from_chars(s, ats, j);
    }
    assert(s[k] == '/' || s[k] == '>') by {
        assert(ss[1 + nl + ats.len() as int] == s[k]);
    }
    lemma_attr_list_rt(e.attrs, env_w1, ats, s, j);
    assert(p_attr_list(s, j) == Parsed::<Seq<AttrRaw>>::Found(raws_of(e.attrs), k));

    // Resolution gives the element's namespace and attributes back.
    assert(raw_decls(raws_of(e.attrs)).len() >= 0);
    lemma_resolve_attrs_wf(e.attrs, env_p1);
    assert(resolve_elem_ns(e.name, env_p1) == Some(e.ns)) by {
        assert(split_qname(e.name) == (None::<Seq<char>>, e.name));
    }

    if e.children.len() == 0 {
        // Self-closing form.
        assert(ss =~= open + seq!['/', '>']);
        assert(ss[1 + nl + ats.len() as int] == '/');
        assert(ss[1 + nl + ats.len() + 1] == '>');
        assert(s[k] == ss[1 + nl + ats.len() as int]);
        assert(s[k + 1] == ss[1 + nl + ats.len() + 1]);
        assert(k + 1 < s.len());
        let parsed = ElemModel {
            name: local_of(e.name),
            ns: e.ns,
            attrs: e.attrs,
            children: Seq::empty(),
        };
        assert(local_of(e.name) == e.name);
        assert(Seq::<NodeModel>::empty() =~= e.children);
        assert(parsed =~= e);
        assert(p_element(s, i, env_p) == Parsed::Found(parsed, k + 2));
        assert(k + 2 == i + ss.len());
    } else {
        assert(decreases_to!(e => e.children));
        lemma_ser_nodes_some(e.children, env_w1, env_p1, d2);
        let body = match ser_nodes(e.children, env_w1) {
            Some(x) => x,
            None => Seq::empty(),
        };
        assert(ser_close_tag(e, env_w1) == Some(seq!['<', '/'] + e.name + seq!['>']));
        let close = seq!['<', '/'] + e.name + seq!['>'];
        assert(ss == open + seq!['>'] + body + close);
        assert(s[k] == '>') by {
            assert(ss[1 + nl + ats.len() as int] == '>');
        }
        let m = k + 1 + body.len() as int;
        assert(starts_with_at(s, body, k + 1)) by {
            assert(forall|w: int|
                0 <= w < body.len() ==> #[trigger] body[w] == ss[1 + nl + ats.len() + 1 + w]);
            lemma_starts_with_from_chars(s, body, k + 1);
        }
        assert(forall|w: int|
            0 <= w < close.len() ==> #[trigger] close[w] == ss[ss.len() - close.len() + w]);
        assert(s[m] == '<') by {
            assert(close[0] == '<');
            assert(ss[1 + nl + ats.len() + 1 + body.len() as int] == close[0]);
        }
        assert(s[m + 1] == '/') by {
            assert(close[1] == '/');
            assert(ss[1 + nl + ats.len() + 1 + body.len() + 1] == close[1]);
        }
        assert(m + 2 <= s.len());
        assert(bump(s, i, k + 1) == k + 1);
        lemma_nodes_rt(e.children, env_w1, env_p1, d2, body, s, k + 1);
        assert(p_nodes(s, k + 1, env_p1) == Parsed::<Seq<NodeModel>>::Found(e.children, m));

        // The closing tag.
        assert(forall|w: int| 0 <= w < nl ==> s[m + 2 + w] == #[trigger] e.name[w]) by {
            assert(forall|w: int| 0 <= w < nl ==> close[2 + w] == #[trigger] e.name[w]);
            assert(forall|w: int|
                0 <= w < nl ==> ss[1 + nl + ats.len() + 1 + body.len() + 2 + w] == #[trigger]
                    close[2 + w]);
        }
        assert(s[m + 2 + nl] == '>') by {
            assert(close[2 + nl] == '>');
            assert(ss[1 + nl + ats.len() + 1 + body.len() + 2 + nl] == close[2 + nl]);
        }
        lemma_scan_name_exact(s, m + 2, e.name);
        assert(s.subrange(m + 2, m + 2 + nl) =~= e.name);
        assert(p_name(s, m + 2) == Parsed::<Seq<char>>::Found(e.name, m + 2 + nl));
        assert(scan_ws(s, m + 2 + nl) == m + 2 + nl);
        assert(p_close_tag(s, m, e.name) == Parsed::<()>::Found((), m + 2 + nl + 1));
        let parsed = ElemModel {
            name: local_of(e.name),
            ns: e.ns,
            attrs: e.attrs,
            children: e.children,
        };
        assert(local_of(e.name) == e.name);
        assert(parsed =~= e);
        assert(m + 2 + nl + 1 == i + ss.len());
        assert(p_element(s, i, env_p) == Parsed::Found(parsed, i + ss.len()));
    }
}


/// A serialized CDATA section embedded at `i` parses back.
#[verifier::rlimit(60)]
proof fn lemma_special_rt_cdata(t0: Seq<char>, h: Seq<char>, s: Seq<char>, i: int)
    requires
        !has_sub(t0, "]]>"@),
        h == seq!['<', '!', '[', 'C', 'D', 'A', 'T', 'A', '['] + t0 + seq![']', ']', '>'],
        0 <= i,
        i + h.len() <= s.len(),
        forall|w: int| 0 <= w < h.len() ==> s[i + w] == #[trigger] h[w],
    ensures
        p_special(s, i) == Parsed::Found(NodeModel::CData(t0), i + h.len()),
{
    reveal_strlit("<![CDATA[");
    reveal_strlit("]]>");
    let opener = seq!['<', '!', '[', 'C', 'D', 'A', 'T', 'A', '['];
    assert("<![CDATA["@ =~= opener);
    assert("]]>"@ =~= seq![']', ']', '>']);
    assert(starts_with_at(s, "<![CDATA["@, i)) by {
        assert forall|m: int| 0 <= m < 9 implies s[i + m] == #[trigger] "<![CDATA["@[m] by {
            assert(h[m] == opener[m]);
            assert(s[i + m] == h[m]);
        }
        lemma_starts_with_from_chars(s, "<![CDATA["@, i);
    }
    lemma_no_overlap_cdata_end();
    assert(starts_with_at(s, "]]>"@, i + 9 + t0.len())) by {
        assert forall|m: int| 0 <= m < 3 implies s[i + 9 + t0.len() + m] == #[trigger] "]]>"@[m]
            by {
            assert(h[9 + t0.len() + m] == seq![']', ']', '>'][m]);
            assert(s[i + (9 + t0.len() + m)] == h[9 + t0.len() + m]);
        }
        lemma_starts_with_from_chars(s, "]]>"@, i + 9 + t0.len() as int);
    }
    assert forall|jj: int| i + 9 <= jj && jj + 3 <= i + 9 + t0.len() implies !starts_with_at(
        s,
        "]]>"@,
        jj,
    ) by {
        if starts_with_at(s, "]]>"@, jj) {
            assert(starts_with_at(t0, "]]>"@, jj - (i + 9))) by {
                lemma_chars_at(s, "]]>"@, jj);
                assert forall|m: int| 0 <= m < 3 implies t0[jj - (i + 9) + m] == #[trigger]
                    "]]>"@[m] by {
                    assert(s[jj + m] == "]]>"@[m]);
                    assert(h[9 + (jj - (i + 9) + m)] == t0[jj - (i + 9) + m]);
                    assert(s[i + (9 + (jj - (i + 9) + m))] == h[9 + (jj - (i + 9) + m)]);
                }
                lemma_starts_with_from_chars(t0, "]]>"@, jj - (i + 9));
            }
            assert(has_sub(t0, "]]>"@));
        }
    }
    lemma_scan_to_exact(s, i + 9, "]]>"@, t0.len() as int);
    let e = i + 9 + t0.len() as int;
    assert(s.subrange(i + 9, e) =~= t0) by {
        assert forall|w: int| 0 <= w < t0.len() implies #[trigger] s.subrange(i + 9, e)[w]
            == t0[w] by {
            assert(h[9 + w] == t0[w]);
            assert(s[i + (9 + w)] == h[9 + w]);
        }
    }
}

/// A serialized comment embedded at `i` parses back.
#[verifier::rlimit(60)]
proof fn lemma_special_rt_comment(t0: Seq<char>, h: Seq<char>, s: Seq<char>, i: int)
    requires
        !has_sub(t0, "-->"@),
        h == seq!['<', '!', '-', '-'] + t0 + seq!['-', '-', '>'],
        0 <= i,
        i + h.len() <= s.len(),
        forall|w: int| 0 <= w < h.len() ==> s[i + w] == #[trigger] h[w],
    ensures
        p_special(s, i) == Parsed::Found(NodeModel::Comment(t0), i + h.len()),
{
    reveal_strlit("<![CDATA[");
    reveal_strlit("<!--");
    reveal_strlit("-->");
    assert("<!--"@ =~= seq!['<', '!', '-', '-']);
    assert("-->"@ =~= seq!['-', '-', '>']);
    assert(!starts_with_at(s, "<![CDATA["@, i)) by {
        if starts_with_at(s, "<![CDATA["@, i) {
            lemma_chars_at(s, "<![CDATA["@, i);
            assert(s[i + 2] == "<![CDATA["@[2]);
            assert("<![CDATA["@[2] == '[');
            assert(h[2] == '-');
            assert(s[i + 2] == h[2]);
        }
    }
    assert(starts_with_at(s, "<!--"@, i)) by {
        assert forall|m: int| 0 <= m < 4 implies s[i + m] == #[trigger] "<!--"@[m] by {
            assert("<!--"@[m] == seq!['<', '!', '-', '-'][m]);
            assert(h[m] == seq!['<', '!', '-', '-'][m]);
            assert(s[i + m] == h[m]);
        }
        lemma_starts_with_from_chars(s, "<!--"@, i);
    }
    lemma_no_overlap_comment_end();
    assert(starts_with_at(s, "-->"@, i + 4 + t0.len())) by {
        assert forall|m: int| 0 <= m < 3 implies s[i + 4 + t0.len() + m] == #[trigger] "-->"@[m]
            by {
            assert(h[4 + t0.len() + m] == seq!['-', '-', '>'][m]);
            assert(s[i + (4 + t0.len() + m)] == h[4 + t0.len() + m]);
        }
        lemma_starts_with_from_chars(s, "-->"@, i + 4 + t0.len() as int);
    }
    assert forall|jj: int| i + 4 <= jj && jj + 3 <= i + 4 + t0.len() implies !starts_with_at(
        s,
        "-->"@,
        jj,
    ) by {
        if starts_with_at(s, "-->"@, jj) {
            assert(starts_with_at(t0, "-->"@, jj - (i + 4))) by {
                lemma_chars_at(s, "-->"@, jj);
                assert forall|m: int| 0 <= m < 3 implies t0[jj - (i + 4) + m] == #[trigger]
                    "-->"@[m] by {
                    assert(s[jj + m] == "-->"@[m]);
                    assert(h[4 + (jj - (i + 4) + m)] == t0[jj - (i + 4) + m]);
                    assert(s[i + (4 + (jj - (i + 4) + m))] == h[4 + (jj - (i + 4) + m)]);
                }
                lemma_starts_with_from_chars(t0, "-->"@, jj - (i + 4));
            }
            assert(has_sub(t0, "-->"@));
        }
    }
    lemma_scan_to_exact(s, i + 4, "-->"@, t0.len() as int);
    let e = i + 4 + t0.len() as int;
    assert(s.subrange(i + 4, e) =~= t0) by {
        assert forall|w: int| 0 <= w < t0.len() implies #[trigger] s.subrange(i + 4, e)[w]
            == t0[w] by {
            assert(h[4 + w] == t0[w]);
            assert(s[i + (4 + w)] == h[4 + w]);
        }
    }
}

/// A serialized processing instruction embedded at `i` parses back.
#[verifier::rlimit(60)]
proof fn lemma_special_rt_pi(t0: Seq<char>, h: Seq<char>, s: Seq<char>, i: int)
    requires
        !has_sub(t0, "?>"@),
        h == seq!['<', '?'] + t0 + seq!['?', '>'],
        0 <= i,
        i + h.len() <= s.len(),
        forall|w: int| 0 <= w < h.len() ==> s[i + w] == #[trigger] h[w],
    ensures
        p_special(s, i) == Parsed::Found(NodeModel::Pi(t0), i + h.len()),
{
    reveal_strlit("<![CDATA[");
    reveal_strlit("<!--");
    reveal_strlit("<?");
    reveal_strlit("?>");
    assert("<?"@ =~= seq!['<', '?']);
    assert("?>"@ =~= seq!['?', '>']);
    assert(!starts_with_at(s, "<![CDATA["@, i)) by {
        if starts_with_at(s, "<![CDATA["@, i) {
            lemma_chars_at(s, "<![CDATA["@, i);
            assert(s[i + 1] == "<![CDATA["@[1]);
            assert("<![CDATA["@[1] == '!');
            assert(h[1] == '?');
            assert(s[i + 1] == h[1]);
        }
    }
    assert(!starts_with_at(s, "<!--"@, i)) by {
        if starts_with_at(s, "<!--"@, i) {
            lemma_chars_at(s, "<!--"@, i);
            assert(s[i + 1] == "<!--"@[1]);
            assert("<!--"@[1] == '!');
            assert(h[1] == '?');
            assert(s[i + 1] == h[1]);
        }
    }
    assert(starts_with_at(s, "<?"@, i)) by {
        assert forall|m: int| 0 <= m < 2 implies s[i + m] == #[trigger] "<?"@[m] by {
            assert("<?"@[m] == seq!['<', '?'][m]);
            assert(h[m] == seq!['<', '?'][m]);
            assert(s[i + m] == h[m]);
        }
        lemma_starts_with_from_chars(s, "<?"@, i);
    }
    lemma_no_overlap_pi_end();
    assert(starts_with_at(s, "?>"@, i + 2 + t0.len())) by {
        assert forall|m: int| 0 <= m < 2 implies s[i + 2 + t0.len() + m] == #[trigger] "?>"@[m]
            by {
            assert(h[2 + t0.len() + m] == seq!['?', '>'][m]);
            assert(s[i + (2 + t0.len() + m)] == h[2 + t0.len() + m]);
        }
        lemma_starts_with_from_chars(s, "?>"@, i + 2 + t0.len() as int);
    }
    assert forall|jj: int| i + 2 <= jj && jj + 2 <= i + 2 + t0.len() implies !starts_with_at(
        s,
        "?>"@,
        jj,
    ) by {
        if starts_with_at(s, "?>"@, jj) {
            assert(starts_with_at(t0, "?>"@, jj - (i + 2))) by {
                lemma_chars_at(s, "?>"@, jj);
                assert forall|m: int| 0 <= m < 2 implies t0[jj - (i + 2) + m] == #[trigger]
                    "?>"@[m] by {
                    assert(s[jj + m] == "?>"@[m]);
                    assert(h[2 + (jj - (i + 2) + m)] == t0[jj - (i + 2) + m]);
                    assert(s[i + (2 + (jj - (i + 2) + m))] == h[2 + (jj - (i + 2) + m)]);
                }
                lemma_starts_with_from_chars(t0, "?>"@, jj - (i + 2));
            }
            assert(has_sub(t0, "?>"@));
        }
    }
    lemma_scan_to_exact(s, i + 2, "?>"@, t0.len() as int);
    let e = i + 2 + t0.len() as int;
    assert(s.subrange(i + 2, e) =~= t0) by {
        assert forall|w: int| 0 <= w < t0.len() implies #[trigger] s.subrange(i + 2, e)[w]
            == t0[w] by {
            assert(h[2 + w] == t0[w]);
            assert(s[i + (2 + w)] == h[2 + w]);
        }
    }
}

/// Parsing the serialized children of a well-formed element, embedded at
/// `i` and followed by a closing tag, finds the children and stops at the
/// closing tag.
#[verifier::rlimit(100)]
proof fn lemma_nodes_rt(
    ch: Seq<NodeModel>,
    env_w1: Seq<Seq<NsBinding>>,
    env_p1: Seq<PrefixBinding>,
    d: Option<Seq<char>>,
    body: Seq<char>,
    s: Seq<char>,
    i: int,
)
    requires
        wf_children(ch, d),
        envs_agree(env_w1, env_p1, d),
        ser_nodes(ch, env_w1) == Some(body),
        starts_with_at(s, body, i),
        i + body.len() + 2 <= s.len(),
        s[i + body.len()] == '<',
        s[i + body.len() + 1] == '/',
    ensures
        p_nodes(s, i, env_p1) == Parsed::Found(ch, i + body.len()),
    decreases ch, 1int,
{
    lemma_chars_at(s, body, i);
    if ch.len() == 0 {
        assert(body.len() == 0);
        assert(Seq::<NodeModel>::empty() =~= ch);
    } else {
        lemma_ser_nodes_cons(ch, env_w1);
        let n0 = ch[0];
        assert(wf_node(n0, d));
        let h = match ser_node(n0, env_w1) {
            Some(x) => x,
            None => Seq::empty(),
        };
        let t = match ser_nodes(ch.drop_first(), env_w1) {
            Some(x) => x,
            None => Seq::empty(),
        };
        assert(body == h + t);
        assert forall|w: int| 0 <= w < h.len() implies s[i + w] == #[trigger] h[w] by {
            assert(body[w] == h[w]);
            assert(s[i + w] == body[w]);
        }
        assert forall|w: int| 0 <= w < t.len() implies s[i + h.len() + w] == #[trigger] t[w] by {
            assert(body[h.len() + w] == t[w]);
            assert(s[i + (h.len() + w)] == body[h.len() + w]);
        }
        let hl = h.len() as int;
        let rest = ch.drop_first();
        assert forall|w: int| 0 <= w < rest.len() implies wf_node(#[trigger] rest[w], d) by {
            assert(rest[w] == ch[w + 1]);
        }
        assert forall|w: int| 0 <= w < rest.len() - 1 implies !((#[trigger] rest[w]) is Text
            && rest[w + 1] is Text) by {
            assert(rest[w] == ch[w + 1]);
            assert(rest[w + 1] == ch[w + 2]);
        }
        assert(starts_with_at(s, t, i + hl)) by {
            lemma_starts_with_from_chars(s, t, i + hl);
        }

        // What the input holds right after this node: `<` either way.
        assert(s[i + hl + t.len()] == '<');
        assert(s[i + hl + t.len() + 1] == '/' || rest.len() > 0);
        if rest.len() > 0 {
            lemma_ser_nodes_cons(rest, env_w1);
            let h2 = match ser_node(rest[0], env_w1) {
                Some(x) => x,
                None => Seq::empty(),
            };
            assert(t.len() >= h2.len());
        }

        match n0 {
            NodeModel::Text(t0) => {
                assert(h == t0);
                assert(t0.len() > 0);
                assert(s[i] == t0[0]);
                assert(s[i] != '<');
                // The text runs up to the next `<`.
                assert(starts_with_at(s, seq!['<'], i + hl)) by {
                    if rest.len() > 0 {
                        assert(!(rest[0] is Text));
                        let h2 = match ser_node(rest[0], env_w1) {
                            Some(x) => x,
                            None => Seq::empty(),
                        };
                        lemma_ser_node_first(rest[0], env_w1, env_p1, d, h2);
                        assert(t[0] == h2[0]);
                        assert(s[i + hl] == '<');
                    } else {
                        assert(t.len() == 0);
                        assert(s[i + hl] == '<');
                    }
                    assert(s.subrange(i + hl, i + hl + 1) =~= seq!['<']);
                }
                assert forall|jj: int| i <= jj && jj + 1 <= i + hl implies !starts_with_at(
                    s,
                    seq!['<'],
                    jj,
                ) by {
                    assert(s[jj] == t0[jj - i]);
                    if starts_with_at(s, seq!['<'], jj) {
                        assert(s.subrange(jj, jj + 1)[0] == '<');
                    }
                }
                lemma_scan_to_exact(s, i, seq!['<'], hl);
                assert(scan_to(s, i, seq!['<']) == i + hl);
                assert(s.subrange(i, i + hl) =~= t0);
                assert(bump(s, i, i + hl) == i + hl);
                lemma_nodes_rt(rest, env_w1, env_p1, d, t, s, i + hl);
                assert(seq![NodeModel::Text(t0)] + rest =~= ch);
            },
            NodeModel::Elem(el) => {
                assert(decreases_to!(ch => ch[0]));
                assert(decreases_to!(ch[0] => el));
                lemma_ser_node_first(n0, env_w1, env_p1, d, h);
                assert(s[i] == h[0]);
                assert(s[i] == '<');
                assert(is_name_char(s[i + 1])) by {
                    assert(s[i + 1] == h[1]);
                }
                assert(s[i + 1] != '/' && s[i + 1] != '!' && s[i + 1] != '?');
                assert(starts_with_at(s, h, i)) by {
                    lemma_starts_with_from_chars(s, h, i);
                }
                lemma_elem_rt(el, env_w1, env_p1, d, h, s, i);
                assert(p_element(s, i, env_p1) == Parsed::<ElemModel>::Found(el, i + hl));
                assert(bump(s, i, i + hl) == i + hl);
                lemma_nodes_rt(rest, env_w1, env_p1, d, t, s, i + hl);
                assert(seq![NodeModel::Elem(el)] + rest =~= ch);
            },
            NodeModel::CData(t0) => {
                assert(h[0] == '<' && h[1] == '!');
                assert(s[i] == h[0] && s[i + 1] == h[1]);
                lemma_special_rt_cdata(t0, h, s, i);
                assert(bump(s, i, i + hl) == i + hl);
                lemma_nodes_rt(rest, env_w1, env_p1, d, t, s, i + hl);
                assert(seq![NodeModel::CData(t0)] + rest =~= ch);
            },
            NodeModel::Comment(t0) => {
                assert(h[0] == '<' && h[1] == '!');
                assert(s[i] == h[0] && s[i + 1] == h[1]);
                lemma_special_rt_comment(t0, h, s, i);
                assert(bump(s, i, i + hl) == i + hl);
                lemma_nodes_rt(rest, env_w1, env_p1, d, t, s, i + hl);
                assert(seq![NodeModel::Comment(t0)] + rest =~= ch);
            },
            NodeModel::Pi(t0) => {
                assert(h[0] == '<' && h[1] == '?');
                assert(s[i] == h[0] && s[i + 1] == h[1]);
                lemma_special_rt_pi(t0, h, s, i);
                assert(bump(s, i, i + hl) == i + hl);
                lemma_nodes_rt(rest, env_w1, env_p1, d, t, s, i + hl);
                assert(seq![NodeModel::Pi(t0)] + rest =~= ch);
            },
        }
    }
}

/// The codec law: every well-formed element tree serialized by a fresh
/// writer parses back to an equal tree, consuming the whole output.
#[verifier::rlimit(60)]
pub proof fn lemma_parse_serialize_round_trip(e: ElemModel, ss: Seq<char>)
    requires
        wf_elem(e, None),
        ser_elem(e, initial_env()) == Some(ss),
    ensures
        p_element(ss, 0, initial_penv()) == Parsed::Found(e, ss.len() as int),
{
    lemma_initial_agree();
    assert(starts_with_at(ss, ss, 0)) by {
        assert(ss.subrange(0, ss.len() as int) =~= ss);
    }
    lemma_elem_rt(e, initial_env(), initial_penv(), None, ss, ss, 0);
}

/// A fresh writer stack and the parser's initial bindings agree on an
/// undeclared default namespace.
proof fn lemma_initial_agree()
    ensures
        envs_agree(initial_env(), initial_penv(), None),
{
    reveal_strlit("xml");
    reveal_strlit("xmlns");
    assert(initial_penv().last().prefix.len() == 5);
    assert(initial_penv().drop_last().last().prefix.len() == 3);
    assert(initial_penv().drop_last().drop_last() =~= Seq::<PrefixBinding>::empty());
    assert(penv_lookup(initial_penv().drop_last().drop_last(), Seq::empty()) is None);
    assert(penv_lookup(initial_penv().drop_last(), Seq::empty()) is None);
    assert(penv_lookup(initial_penv(), Seq::empty()) is None);
}

/// Well-formedness also makes the fresh writer succeed: the two together
/// give the round trip unconditionally.
pub proof fn lemma_wf_serializes(e: ElemModel)
    requires
        wf_elem(e, None),
    ensures
        ser_elem(e, initial_env()) is Some,
{
    lemma_initial_agree();
    lemma_ser_elem_some(e, initial_env(), initial_penv(), None);
}

/// Public face of the exact-scan lemma, for other codecs of the crate.
pub proof fn lemma_scan_to_exact_pub(s: Seq<char>, i: int, pat: Seq<char>, tlen: int)
    requires
        0 <= i,
        0 <= tlen,
        pat.len() > 0,
        no_self_overlap(pat),
        i + tlen + pat.len() <= s.len(),
        starts_with_at(s, pat, i + tlen),
        forall|j: int| i <= j && j + pat.len() <= i + tlen ==> !starts_with_at(s, pat, j),
    ensures
        scan_to(s, i, pat) == i + tlen,
{
    lemma_scan_to_exact(s, i, pat, tlen);
}

/// Public face of the absent-scan lemma, for other codecs of the crate.
pub proof fn lemma_scan_to_absent_pub(s: Seq<char>, i: int, pat: Seq<char>)
    requires
        forall|j: int| i <= j ==> !starts_with_at(s, pat, j),
    ensures
        scan_to(s, i, pat) == s.len(),
{
    lemma_scan_to_absent(s, i, pat);
}

/// The law, executable end to end: a well-formed tree serialized by a
/// fresh writer and fed to the parser comes back equal.
pub fn serialize_then_parse(e: &Element) -> (r: Option<Element>)
    ensures
        wf_elem(e@, None) ==> (r matches Some(e2) && e2@ == e@),
{
    let mut writer = crate::xml::writer::StreamWriter::new();
    let out = match writer.write_xml_element(e) {
        Ok(s) => s,
        Err(_) => {
            proof {
                if wf_elem(e@, None) {
                    lemma_wf_serializes(e@);
                }
            }
            return None;
        },
    };
    let env = crate::xml::parser::initial_penv_exec();
    match crate::xml::parser::e_p_element(out.as_str(), 0, &env) {
        crate::xml::parser::PStep::Found(parsed, _consumed) => {
            proof {
                if wf_elem(e@, None) {
                    lemma_parse_serialize_round_trip(e@, out@);
                }
            }
            Some(parsed)
        },
        _ => {
            proof {
                if wf_elem(e@, None) {
                    lemma_parse_serialize_round_trip(e@, out@);
                }
            }
            None
        },
    }
}

} // verus!
