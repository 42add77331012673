//! The streaming fragment parser: bytes in, frames out.
//!
//! The parser buffers characters and yields one frame per call: the stream
//! header once, then one element per top-level child of the stream root,
//! until the stream closing tag. Whitespace keep-alives between fragments
//! are consumed silently. Every production is proved against the
//! specification parser in [`crate::xml::parse`].

use vstd::prelude::*;

use crate::jid::Jid;
use crate::xml::parse::{
    is_name_char, is_ws, p_attr, p_attr_list, p_close_tag, p_element, p_name, p_nodes, p_open_tag,
    raw_attr_decl,
    p_special, penv_lookup, raw_decls, resolve_attr, resolve_attrs, resolve_elem_ns, scan_name,
    scan_to, scan_ws, split_qname, starts_with_at, AttrRaw, Parsed, PrefixBinding,
};
use crate::xml::parse::local_of;
use crate::xml::{
    attrs_model, node_model, nodes_model, str_eq, Attribute, Element, ElemModel, Node,
};
use crate::xmpp::stream_header::{LanguageTag, StreamHeader};

verus! {

/// Exec counterpart of [`Parsed`].
pub(crate) enum PStep<T> {
    Found(T, usize),
    NeedMore,
    Reject,
}

/// Exec counterpart of [`PrefixBinding`].
pub(crate) struct PrefixPair {
    pub(crate) prefix: String,
    pub(crate) uri: String,
}

impl View for PrefixPair {
    type V = PrefixBinding;

    closed spec fn view(&self) -> PrefixBinding {
        PrefixBinding { prefix: self.prefix@, uri: self.uri@ }
    }
}

pub(crate) open spec fn penv_of(v: Seq<PrefixPair>) -> Seq<PrefixBinding> {
    Seq::new(v.len(), |i: int| v[i]@)
}

/// Exec counterpart of [`AttrRaw`].
pub(crate) struct RawAttribute {
    pub(crate) name: String,
    pub(crate) value: String,
}

impl View for RawAttribute {
    type V = AttrRaw;

    closed spec fn view(&self) -> AttrRaw {
        AttrRaw { name: self.name@, value: self.value@ }
    }
}

pub(crate) open spec fn raws_view(v: Seq<RawAttribute>) -> Seq<AttrRaw> {
    Seq::new(v.len(), |i: int| v[i]@)
}

pub(crate) fn is_ws_exec(c: char) -> (r: bool)
    ensures
        r == is_ws(c),
{
    c == ' ' || c == '\t' || c == '\r' || c == '\n'
}

pub(crate) fn is_name_char_exec(c: char) -> (r: bool)
    ensures
        r == is_name_char(c),
{
    !is_ws_exec(c) && c != '<' && c != '>' && c != '/' && c != '=' && c != '"' && c != '\''
        && c != '!' && c != '?'
}

pub(crate) fn e_scan_ws(s: &str, i: usize) -> (r: usize)
    requires
        i <= s@.len(),
    ensures
        r == scan_ws(s@, i as int),
        i <= r <= s@.len(),
    decreases s@.len() - i,
{
    if i == s.unicode_len() {
        i
    } else if is_ws_exec(s.get_char(i)) {
        e_scan_ws(s, i + 1)
    } else {
        i
    }
}

pub(crate) fn e_scan_name(s: &str, i: usize) -> (r: usize)
    requires
        i <= s@.len(),
    ensures
        r == scan_name(s@, i as int),
        i <= r <= s@.len(),
    decreases s@.len() - i,
{
    if i == s.unicode_len() {
        i
    } else if is_name_char_exec(s.get_char(i)) {
        e_scan_name(s, i + 1)
    } else {
        i
    }
}

/// Whether `pat` occurs at `i` in full.
pub(crate) fn e_starts_with_at(s: &str, pat: &str, i: usize) -> (r: bool)
    requires
        i <= s@.len(),
    ensures
        r == starts_with_at(s@, pat@, i as int),
{
    let pl = pat.unicode_len();
    if s.unicode_len() - i < pl {
        return false;
    }
    let mut m: usize = 0;
    while m < pl
        invariant
            0 <= m <= pl,
            pl == pat@.len(),
            i + pl <= s@.len(),
            s@.len() <= usize::MAX,
            forall|w: int| 0 <= w < m ==> s@[i + w] == pat@[w],
        decreases pl - m,
    {
        if s.get_char(i + m) != pat.get_char(m) {
            proof {
                assert(s@.subrange(i as int, i + pat@.len() as int)[m as int] == s@[i + m]);
            }
            return false;
        }
        m = m + 1;
    }
    proof {
        assert(s@.subrange(i as int, i + pat@.len() as int) =~= pat@) by {
            assert(forall|w: int|
                0 <= w < pat@.len() ==> #[trigger] s@.subrange(i as int, i + pat@.len() as int)[w]
                    == s@[i + w]);
        }
    }
    true
}

pub(crate) fn e_scan_to(s: &str, pat: &str, i: usize) -> (r: usize)
    requires
        i <= s@.len(),
        pat@.len() > 0,
    ensures
        r == scan_to(s@, i as int, pat@),
        i <= r <= s@.len(),
    decreases s@.len() - i,
{
    let n = s.unicode_len();
    if i == n || s.unicode_len() - i < pat.unicode_len() {
        n
    } else if e_starts_with_at(s, pat, i) {
        proof {
            assert(s@.subrange(i as int, i + pat@.len() as int) == pat@);
        }
        i
    } else {
        proof {
            if s@.subrange(i as int, i + pat@.len() as int) == pat@ {
                assert(starts_with_at(s@, pat@, i as int));
            }
        }
        e_scan_to(s, pat, i + 1)
    }
}

/// A name at `i`.
pub(crate) fn e_p_name(s: &str, i: usize) -> (r: PStep<String>)
    requires
        i <= s@.len(),
    ensures
        match r {
            PStep::Found(n, j) => p_name(s@, i as int) == Parsed::Found(n@, j as int) && i < j
                <= s@.len(),
            PStep::NeedMore => p_name(s@, i as int) is NeedMore,
            PStep::Reject => p_name(s@, i as int) is Reject,
        },
{
    let j = e_scan_name(s, i);
    if j == s.unicode_len() {
        PStep::NeedMore
    } else if j == i {
        PStep::Reject
    } else {
        PStep::Found(s.substring_char(i, j).to_owned(), j)
    }
}

/// One attribute at `i`.
pub(crate) fn e_p_attr(s: &str, i: usize) -> (r: PStep<RawAttribute>)
    requires
        i <= s@.len(),
    ensures
        match r {
            PStep::Found(a, j) => p_attr(s@, i as int) == Parsed::Found(a@, j as int) && i < j
                <= s@.len(),
            PStep::NeedMore => p_attr(s@, i as int) is NeedMore,
            PStep::Reject => p_attr(s@, i as int) is Reject,
        },
{
    match e_p_name(s, i) {
        PStep::Found(name, j) => {
            let k = e_scan_ws(s, j);
            if k == s.unicode_len() {
                PStep::NeedMore
            } else if s.get_char(k) != '=' {
                PStep::Reject
            } else {
                let v = e_scan_ws(s, k + 1);
                if v == s.unicode_len() {
                    PStep::NeedMore
                } else if s.get_char(v) != '"' && s.get_char(v) != '\'' {
                    PStep::Reject
                } else {
                    let q = s.get_char(v);
                    let qs = if q == '"' {
                        "\""
                    } else {
                        "'"
                    };
                    proof {
                        reveal_strlit("\"");
                        reveal_strlit("'");
                        assert(qs@ =~= seq![q]);
                    }
                    let e = e_scan_to(s, qs, v + 1);
                    if e == s.unicode_len() {
                        PStep::NeedMore
                    } else {
                        let value = s.substring_char(v + 1, e).to_owned();
                        PStep::Found(RawAttribute { name, value }, e + 1)
                    }
                }
            }
        },
        PStep::NeedMore => PStep::NeedMore,
        PStep::Reject => PStep::Reject,
    }
}

/// The attribute list of a tag, ending at `>` or `/`.
pub(crate) fn e_p_attr_list(s: &str, i: usize) -> (r: PStep<Vec<RawAttribute>>)
    requires
        i <= s@.len(),
    ensures
        match r {
            PStep::Found(ats, j) => p_attr_list(s@, i as int) == Parsed::Found(
                raws_view(ats@),
                j as int,
            ) && i <= j < s@.len(),
            PStep::NeedMore => p_attr_list(s@, i as int) is NeedMore,
            PStep::Reject => p_attr_list(s@, i as int) is Reject,
        },
    decreases s@.len() - i,
{
    let j = e_scan_ws(s, i);
    if j == s.unicode_len() {
        PStep::NeedMore
    } else if s.get_char(j) == '>' || s.get_char(j) == '/' {
        let empty: Vec<RawAttribute> = Vec::new();
        proof {
            assert(raws_view(empty@) =~= Seq::<AttrRaw>::empty());
        }
        PStep::Found(empty, j)
    } else {
        match e_p_attr(s, j) {
            PStep::Found(a, k) => {
                proof {
                    assert(crate::xml::parse::bump(s@, i as int, k as int) == k as int);
                }
                match e_p_attr_list(s, k) {
                    PStep::Found(mut rest, m) => {
                        let ghost old_rest = rest@;
                        rest.insert(0, a);
                        proof {
                            assert(raws_view(rest@) =~= seq![rest@[0]@] + raws_view(old_rest));
                        }
                        PStep::Found(rest, m)
                    },
                    PStep::NeedMore => PStep::NeedMore,
                    PStep::Reject => PStep::Reject,
                }
            },
            PStep::NeedMore => PStep::NeedMore,
            PStep::Reject => PStep::Reject,
        }
    }
}

/// The position of the first colon in a name, or its length.
pub(crate) fn e_colon_pos(n: &str) -> (r: usize)
    ensures
        r == crate::xml::parse::colon_pos(n@),
        r <= n@.len(),
{
    proof {
        reveal_strlit(":");
        assert(":"@ =~= seq![':']);
    }
    e_scan_to(n, ":", 0)
}

/// A name split at its first colon.
pub(crate) fn e_split_qname(n: &str) -> (r: (Option<String>, String))
    ensures
        ({
            let (pfx, local) = split_qname(n@);
            crate::xml::opt_string_view(r.0) == pfx && r.1@ == local
        }),
{
    let c = e_colon_pos(n);
    if c == n.unicode_len() {
        (None, n.to_owned())
    } else {
        (Some(n.substring_char(0, c).to_owned()), n.substring_char(c + 1, n.unicode_len()).to_owned())
    }
}

/// The URI bound to a prefix; the binding added last wins.
pub(crate) fn e_penv_lookup(env: &Vec<PrefixPair>, p: &str) -> (r: Option<String>)
    ensures
        crate::xml::opt_string_view(r) == penv_lookup(penv_of(env@), p@),
{
    let ghost model = penv_of(env@);
    let mut bi = env.len();
    proof {
        assert(model.take(bi as int) =~= model);
    }
    while bi > 0
        invariant
            bi <= env.len(),
            model == penv_of(env@),
            penv_lookup(model, p@) == penv_lookup(model.take(bi as int), p@),
        decreases bi,
    {
        bi = bi - 1;
        proof {
            assert(model.take(bi + 1).last() == model[bi as int]);
            assert(model.take(bi + 1).drop_last() =~= model.take(bi as int));
        }
        if str_eq(env[bi].prefix.as_str(), p) {
            return Some(env[bi].uri.clone());
        }
    }
    proof {
        assert(model.take(0) =~= Seq::<PrefixBinding>::empty());
    }
    None
}

/// The reserved bindings, as a fresh vector.
pub(crate) fn initial_penv_exec() -> (r: Vec<PrefixPair>)
    ensures
        penv_of(r@) == crate::xml::round_trip::initial_penv(),
{
    let mut env: Vec<PrefixPair> = Vec::new();
    env.push(
        PrefixPair {
            prefix: "xml".to_owned(),
            uri: crate::xml::namespaces::ns_xml().to_owned(),
        },
    );
    env.push(
        PrefixPair {
            prefix: "xmlns".to_owned(),
            uri: crate::xml::namespaces::ns_xmlns().to_owned(),
        },
    );
    proof {
        assert(penv_of(env@) =~= crate::xml::round_trip::initial_penv());
    }
    env
}

/// A copy of the bindings.
pub(crate) fn clone_penv(env: &Vec<PrefixPair>) -> (r: Vec<PrefixPair>)
    ensures
        penv_of(r@) == penv_of(env@),
{
    let mut r: Vec<PrefixPair> = Vec::new();
    let n = env.len();
    proof {
        assert(penv_of(r@) =~= penv_of(env@).take(0));
    }
    for i in 0..n
        invariant
            n == env.len(),
            penv_of(r@) == penv_of(env@).take(i as int),
    {
        let ghost r0 = r@;
        proof {
            assert(r0.len() == i) by {
                assert(penv_of(r0).len() == r0.len());
            }
        }
        r.push(PrefixPair { prefix: env[i].prefix.clone(), uri: env[i].uri.clone() });
        proof {
            assert forall|k: int| 0 <= k < i + 1 implies #[trigger] penv_of(r@)[k] == penv_of(
                env@,
            ).take(i + 1)[k] by {
                if k < i {
                    assert(r@[k] == r0[k]);
                    assert(penv_of(r0)[k] == r0[k]@);
                } else {
                    assert(r@[k]@ == env@[k]@);
                }
            }
            assert(penv_of(r@) =~= penv_of(env@).take(i + 1));
        }
    }
    proof {
        assert(penv_of(env@).take(n as int) =~= penv_of(env@));
    }
    r
}

/// The bindings extended by the declarations of a raw attribute list.
pub(crate) fn extend_env(env: &Vec<PrefixPair>, raws: &Vec<RawAttribute>) -> (r: Vec<PrefixPair>)
    ensures
        penv_of(r@) == penv_of(env@) + raw_decls(raws_view(raws@)),
{
    let ghost base = penv_of(env@);
    let ghost rvs = raws_view(raws@);
    let mut r = clone_penv(env);
    let n = raws.len();
    proof {
        assert(rvs.take(0) =~= Seq::<AttrRaw>::empty());
        assert(penv_of(r@) =~= base + raw_decls(rvs.take(0)));
    }
    for i in 0..n
        invariant
            n == raws.len(),
            base == penv_of(env@),
            rvs == raws_view(raws@),
            penv_of(r@) == base + raw_decls(rvs.take(i as int)),
    {
        let a = &raws[i];
        proof {
            reveal_strlit("xmlns");
            assert(rvs.take(i + 1).drop_last() =~= rvs.take(i as int));
            assert(rvs.take(i + 1).last() == rvs[i as int]);
            assert(rvs[i as int] == raws@[i as int]@);
        }
        let ghost r0 = r@;
        proof {
            assert(r0.len() == base.len() + raw_decls(rvs.take(i as int)).len()) by {
                assert(penv_of(r0).len() == r0.len());
            }
        }
        let (pfx, local) = e_split_qname(a.name.as_str());
        match pfx {
            None => {
                if str_eq(a.name.as_str(), "xmlns") {
                    r.push(PrefixPair { prefix: String::new(), uri: a.value.clone() });
                    proof {
                        assert(raw_attr_decl(rvs[i as int]) =~= seq![
                            PrefixBinding { prefix: Seq::empty(), uri: raws@[i as int].value@ },
                        ]);
                        assert(r@[r@.len() - 1]@ == PrefixBinding {
                            prefix: Seq::empty(),
                            uri: raws@[i as int].value@,
                        });
                    }
                } else {
                    proof {
                        assert(raw_attr_decl(rvs[i as int]) =~= Seq::<PrefixBinding>::empty());
                    }
                }
            },
            Some(p) => {
                if str_eq(p.as_str(), "xmlns") {
                    let ghost lv = local@;
                    r.push(PrefixPair { prefix: local, uri: a.value.clone() });
                    proof {
                        assert(raw_attr_decl(rvs[i as int]) =~= seq![
                            PrefixBinding { prefix: lv, uri: raws@[i as int].value@ },
                        ]);
                        assert(r@[r@.len() - 1]@ == PrefixBinding {
                            prefix: lv,
                            uri: raws@[i as int].value@,
                        });
                    }
                } else {
                    proof {
                        assert(raw_attr_decl(rvs[i as int]) =~= Seq::<PrefixBinding>::empty());
                    }
                }
            },
        }
        proof {
            assert forall|k: int| 0 <= k < r@.len() implies #[trigger] penv_of(r@)[k] == (base
                + raw_decls(rvs.take(i + 1)))[k] by {
                assert(raw_decls(rvs.take(i + 1)) == raw_decls(rvs.take(i as int)) + raw_attr_decl(
                    rvs[i as int],
                ));
                if k < r0.len() {
                    assert(r@[k] == r0[k]);
                    assert(penv_of(r0)[k] == r0[k]@);
                }
            }
            assert(penv_of(r@).len() == (base + raw_decls(rvs.take(i + 1))).len()) by {
                assert(raw_decls(rvs.take(i + 1)) == raw_decls(rvs.take(i as int)) + raw_attr_decl(
                    rvs[i as int],
                ));
            }
            assert(penv_of(r@) =~= base + raw_decls(rvs.take(i + 1)));
        }
    }
    proof {
        assert(rvs.take(n as int) =~= rvs);
    }
    r
}

/// The resolved namespace of an element name: `Err` when a prefix is
/// unbound.
pub(crate) fn e_resolve_elem_ns(name: &str, env1: &Vec<PrefixPair>) -> (r: Result<
    Option<String>,
    (),
>)
    ensures
        match r {
            Ok(ns) => resolve_elem_ns(name@, penv_of(env1@)) == Some(
                crate::xml::opt_string_view(ns),
            ),
            Err(_) => resolve_elem_ns(name@, penv_of(env1@)) is None,
        },
{
    let (pfx, _local) = e_split_qname(name);
    match pfx {
        None => match e_penv_lookup(env1, "") {
            None => {
                proof {
                    reveal_strlit("");
                    assert(""@ =~= Seq::<char>::empty());
                }
                Ok(None)
            },
            Some(u) => {
                proof {
                    reveal_strlit("");
                    assert(""@ =~= Seq::<char>::empty());
                }
                if u.as_str().is_empty() {
                    Ok(None)
                } else {
                    Ok(Some(u))
                }
            },
        },
        Some(p) => match e_penv_lookup(env1, p.as_str()) {
            None => Err(()),
            Some(u) => if u.as_str().is_empty() {
                Ok(None)
            } else {
                Ok(Some(u))
            },
        },
    }
}

/// One resolved attribute; `None` when its prefix is unbound.
pub(crate) fn e_resolve_attr(a: &RawAttribute, env1: &Vec<PrefixPair>) -> (r: Option<Attribute>)
    ensures
        match r {
            Some(at) => resolve_attr(a@, penv_of(env1@)) == Some(at@),
            None => resolve_attr(a@, penv_of(env1@)) is None,
        },
{
    let (pfx, local) = e_split_qname(a.name.as_str());
    match pfx {
        None => Some(
            Attribute { name: a.name.clone(), namespace: None, value: a.value.clone() },
        ),
        Some(p) => {
            if str_eq(p.as_str(), "xmlns") {
                Some(
                    Attribute {
                        name: local,
                        namespace: Some(crate::xml::namespaces::ns_xmlns().to_owned()),
                        value: a.value.clone(),
                    },
                )
            } else {
                match e_penv_lookup(env1, p.as_str()) {
                    None => None,
                    Some(u) => Some(
                        Attribute { name: local, namespace: Some(u), value: a.value.clone() },
                    ),
                }
            }
        },
    }
}

/// The resolved attribute list; `None` as soon as one attribute fails.
pub(crate) fn e_resolve_attrs(raws: &Vec<RawAttribute>, env1: &Vec<PrefixPair>) -> (r: Option<
    Vec<Attribute>,
>)
    ensures
        match r {
            Some(v) => resolve_attrs(raws_view(raws@), penv_of(env1@)) == Some(attrs_model(v@)),
            None => resolve_attrs(raws_view(raws@), penv_of(env1@)) is None,
        },
{
    let ghost rvs = raws_view(raws@);
    let ghost env1v = penv_of(env1@);
    let mut acc: Vec<Attribute> = Vec::new();
    let n = raws.len();
    proof {
        assert(rvs.take(0) =~= Seq::<AttrRaw>::empty());
        assert(attrs_model(acc@) =~= Seq::<crate::xml::AttrModel>::empty());
    }
    for i in 0..n
        invariant
            n == raws.len(),
            rvs == raws_view(raws@),
            env1v == penv_of(env1@),
            resolve_attrs(rvs.take(i as int), env1v) == Some(attrs_model(acc@)),
    {
        proof {
            assert(rvs.take(i + 1).drop_last() =~= rvs.take(i as int));
            assert(rvs.take(i + 1).last() == rvs[i as int]);
            assert(rvs[i as int] == raws@[i as int]@);
        }
        match e_resolve_attr(&raws[i], env1) {
            Some(at) => {
                let ghost acc0 = acc@;
                let ghost atm = at@;
                acc.push(at);
                proof {
                    assert(attrs_model(acc@) =~= attrs_model(acc0).push(atm));
                }
            },
            None => {
                proof {
                    lemma_resolve_attrs_none_mono(rvs, i + 1, env1v);
                }
                return None;
            },
        }
    }
    proof {
        assert(rvs.take(n as int) =~= rvs);
    }
    Some(acc)
}

proof fn lemma_resolve_attrs_none_mono(s: Seq<AttrRaw>, k: int, env1: Seq<PrefixBinding>)
    requires
        0 <= k <= s.len(),
        resolve_attrs(s.take(k), env1) is None,
    ensures
        resolve_attrs(s, env1) is None,
    decreases s.len() - k,
{
    if k == s.len() {
        assert(s.take(k) =~= s);
    } else {
        assert(s.take(k + 1).drop_last() =~= s.take(k));
        lemma_resolve_attrs_none_mono(s, k + 1, env1);
    }
}


/// A scan that stops before the end found the pattern there.
pub(crate) proof fn lemma_scan_to_match(s: Seq<char>, i: int, pat: Seq<char>)
    ensures
        scan_to(s, i, pat) < s.len() ==> starts_with_at(s, pat, scan_to(s, i, pat)),
    decreases s.len() - i,
{
    if i < 0 || i >= s.len() || i + pat.len() > s.len() {
    } else if s.subrange(i, i + pat.len() as int) == pat {
        assert(starts_with_at(s, pat, i));
    } else {
        lemma_scan_to_match(s, i + 1, pat);
    }
}

/// The closing tag `</rawname>` at `i`.
pub(crate) fn e_p_close_tag(s: &str, i: usize, rawname: &str) -> (r: PStep<()>)
    requires
        i <= s@.len(),
    ensures
        match r {
            PStep::Found(_, j) => p_close_tag(s@, i as int, rawname@) == Parsed::Found(
                (),
                j as int,
            ) && i < j <= s@.len(),
            PStep::NeedMore => p_close_tag(s@, i as int, rawname@) is NeedMore,
            PStep::Reject => p_close_tag(s@, i as int, rawname@) is Reject,
        },
{
    let n = s.unicode_len();
    if n - i < 2 {
        PStep::NeedMore
    } else if s.get_char(i) != '<' || s.get_char(i + 1) != '/' {
        PStep::Reject
    } else {
        match e_p_name(s, i + 2) {
            PStep::Found(nm, j) => {
                if !str_eq(nm.as_str(), rawname) {
                    PStep::Reject
                } else {
                    let k = e_scan_ws(s, j);
                    if k == n {
                        PStep::NeedMore
                    } else if s.get_char(k) != '>' {
                        PStep::Reject
                    } else {
                        PStep::Found((), k + 1)
                    }
                }
            },
            PStep::NeedMore => PStep::NeedMore,
            PStep::Reject => PStep::Reject,
        }
    }
}

/// A CDATA section, comment or processing instruction at `i`.
pub(crate) fn e_p_special(s: &str, i: usize) -> (r: PStep<Node>)
    requires
        i < s@.len(),
    ensures
        match r {
            PStep::Found(nd, j) => p_special(s@, i as int) == Parsed::Found(
                node_model(nd),
                j as int,
            ) && i < j <= s@.len(),
            PStep::NeedMore => p_special(s@, i as int) is NeedMore,
            PStep::Reject => p_special(s@, i as int) is Reject,
        },
{
    proof {
        reveal_strlit("<![CDATA[");
        reveal_strlit("]]>");
        reveal_strlit("<!--");
        reveal_strlit("-->");
        reveal_strlit("<?");
        reveal_strlit("?>");
    }
    let n = s.unicode_len();
    if e_starts_with_at(s, "<![CDATA[", i) {
        let e = e_scan_to(s, "]]>", i + 9);
        proof {
            lemma_scan_to_match(s@, i + 9, "]]>"@);
        }
        if e == n {
            PStep::NeedMore
        } else {
            let content = s.substring_char(i + 9, e).to_owned();
            PStep::Found(Node::CData(content), e + 3)
        }
    } else if e_starts_with_at(s, "<!--", i) {
        let e = e_scan_to(s, "-->", i + 4);
        proof {
            lemma_scan_to_match(s@, i + 4, "-->"@);
        }
        if e == n {
            PStep::NeedMore
        } else {
            let content = s.substring_char(i + 4, e).to_owned();
            PStep::Found(Node::Comment(content), e + 3)
        }
    } else if e_starts_with_at(s, "<?", i) {
        let e = e_scan_to(s, "?>", i + 2);
        proof {
            lemma_scan_to_match(s@, i + 2, "?>"@);
        }
        if e == n {
            PStep::NeedMore
        } else {
            let content = s.substring_char(i + 2, e).to_owned();
            PStep::Found(Node::ProcessingInstruction(content), e + 2)
        }
    } else if n - i <= 9 {
        PStep::NeedMore
    } else {
        PStep::Reject
    }
}

/// A complete element at `i`, resolved against the bindings.
pub(crate) fn e_p_element(s: &str, i: usize, env: &Vec<PrefixPair>) -> (r: PStep<Element>)
    requires
        i <= s@.len(),
    ensures
        match r {
            PStep::Found(el, j) => p_element(s@, i as int, penv_of(env@)) == Parsed::Found(
                el@,
                j as int,
            ) && i < j <= s@.len(),
            PStep::NeedMore => p_element(s@, i as int, penv_of(env@)) is NeedMore,
            PStep::Reject => p_element(s@, i as int, penv_of(env@)) is Reject,
        },
    decreases s@.len() - i, 1int,
{
    let n = s.unicode_len();
    if i == n {
        return PStep::NeedMore;
    }
    if s.get_char(i) != '<' {
        return PStep::Reject;
    }
    let rawname = match e_p_name(s, i + 1) {
        PStep::Found(x, j) => (x, j),
        PStep::NeedMore => {
            return PStep::NeedMore;
        },
        PStep::Reject => {
            return PStep::Reject;
        },
    };
    let (rawname, j) = rawname;
    let (raws, k) = match e_p_attr_list(s, j) {
        PStep::Found(x, k) => (x, k),
        PStep::NeedMore => {
            return PStep::NeedMore;
        },
        PStep::Reject => {
            return PStep::Reject;
        },
    };
    let env1 = extend_env(env, &raws);
    let ns = match e_resolve_elem_ns(rawname.as_str(), &env1) {
        Ok(ns) => ns,
        Err(_) => {
            return PStep::Reject;
        },
    };
    let attrs = match e_resolve_attrs(&raws, &env1) {
        Some(a) => a,
        None => {
            return PStep::Reject;
        },
    };
    let (_pfx, local) = e_split_qname(rawname.as_str());
    if s.get_char(k) == '/' {
        if k + 1 == n {
            return PStep::NeedMore;
        }
        if s.get_char(k + 1) != '>' {
            return PStep::Reject;
        }
        let el = Element { name: local, namespace: ns, attributes: attrs, children: Vec::new() };
        proof {
            assert(crate::xml::nodes_model(el.children@) =~= Seq::<crate::xml::NodeModel>::empty());
            assert(el@ =~= crate::xml::ElemModel {
                name: crate::xml::parse::local_of(rawname@),
                ns: crate::xml::opt_string_view(el.namespace),
                attrs: crate::xml::attrs_model(el.attributes@),
                children: Seq::empty(),
            });
        }
        return PStep::Found(el, k + 2);
    }
    proof {
        assert(crate::xml::parse::bump(s@, i as int, k + 1) == k + 1);
    }
    let (kids, m) = match e_p_nodes(s, k + 1, &env1) {
        PStep::Found(x, m) => (x, m),
        PStep::NeedMore => {
            return PStep::NeedMore;
        },
        PStep::Reject => {
            return PStep::Reject;
        },
    };
    match e_p_close_tag(s, m, rawname.as_str()) {
        PStep::Found(_, z) => {
            let el = Element { name: local, namespace: ns, attributes: attrs, children: kids };
            proof {
                assert(el@ =~= crate::xml::ElemModel {
                    name: crate::xml::parse::local_of(rawname@),
                    ns: crate::xml::opt_string_view(el.namespace),
                    attrs: crate::xml::attrs_model(el.attributes@),
                    children: crate::xml::nodes_model(el.children@),
                });
            }
            PStep::Found(el, z)
        },
        PStep::NeedMore => PStep::NeedMore,
        PStep::Reject => PStep::Reject,
    }
}

/// The children of an element, up to its closing tag.
pub(crate) fn e_p_nodes(s: &str, i: usize, env: &Vec<PrefixPair>) -> (r: PStep<Vec<Node>>)
    requires
        i <= s@.len(),
    ensures
        match r {
            PStep::Found(v, j) => p_nodes(s@, i as int, penv_of(env@)) == Parsed::Found(
                nodes_model(v@),
                j as int,
            ) && i <= j <= s@.len(),
            PStep::NeedMore => p_nodes(s@, i as int, penv_of(env@)) is NeedMore,
            PStep::Reject => p_nodes(s@, i as int, penv_of(env@)) is Reject,
        },
    decreases s@.len() - i, 2int,
{
    let n = s.unicode_len();
    if i == n {
        return PStep::NeedMore;
    }
    if s.get_char(i) == '<' {
        if i + 1 == n {
            return PStep::NeedMore;
        }
        if s.get_char(i + 1) == '/' {
            let empty: Vec<Node> = Vec::new();
            proof {
                assert(nodes_model(empty@) =~= Seq::<crate::xml::NodeModel>::empty());
            }
            return PStep::Found(empty, i);
        }
        if s.get_char(i + 1) == '!' || s.get_char(i + 1) == '?' {
            match e_p_special(s, i) {
                PStep::Found(node, j) => {
                    proof {
                        assert(crate::xml::parse::bump(s@, i as int, j as int) == j as int);
                    }
                    match e_p_nodes(s, j, env) {
                        PStep::Found(mut rest, m) => {
                            let ghost old_rest = rest@;
                            let ghost nodem = node@;
                            rest.insert(0, node);
                            proof {
                                lemma_nodes_model_cons(rest@, old_rest, nodem);
                            }
                            PStep::Found(rest, m)
                        },
                        PStep::NeedMore => PStep::NeedMore,
                        PStep::Reject => PStep::Reject,
                    }
                },
                PStep::NeedMore => PStep::NeedMore,
                PStep::Reject => PStep::Reject,
            }
        } else {
            match e_p_element(s, i, env) {
                PStep::Found(el, j) => {
                    proof {
                        assert(crate::xml::parse::bump(s@, i as int, j as int) == j as int);
                    }
                    match e_p_nodes(s, j, env) {
                        PStep::Found(mut rest, m) => {
                            let ghost old_rest = rest@;
                            let ghost elm = el@;
                            rest.insert(0, Node::Element(el));
                            proof {
                                lemma_nodes_model_cons(rest@, old_rest, crate::xml::NodeModel::Elem(elm));
                            }
                            PStep::Found(rest, m)
                        },
                        PStep::NeedMore => PStep::NeedMore,
                        PStep::Reject => PStep::Reject,
                    }
                },
                PStep::NeedMore => PStep::NeedMore,
                PStep::Reject => PStep::Reject,
            }
        }
    } else {
        proof {
            reveal_strlit("<");
            assert("<"@ =~= seq!['<']);
        }
        let j = e_scan_to(s, "<", i);
        proof {
            lemma_scan_to_match(s@, i as int, "<"@);
        }
        if j == n {
            return PStep::NeedMore;
        }
        let text = s.substring_char(i, j).to_owned();
        proof {
            assert(s@[j as int] == '<') by {
                assert(s@.subrange(j as int, j + 1)[0] == '<');
            }
            assert(crate::xml::parse::bump(s@, i as int, j as int) == j as int);
        }
        match e_p_nodes(s, j, env) {
            PStep::Found(mut rest, m) => {
                let ghost old_rest = rest@;
                let ghost tv = text@;
                rest.insert(0, Node::Text(text));
                proof {
                    lemma_nodes_model_cons(rest@, old_rest, crate::xml::NodeModel::Text(tv));
                }
                PStep::Found(rest, m)
            },
            PStep::NeedMore => PStep::NeedMore,
            PStep::Reject => PStep::Reject,
        }
    }
}

/// The model of a node sequence with one node put in front.
proof fn lemma_nodes_model_cons(v: Seq<Node>, old_rest: Seq<Node>, m: crate::xml::NodeModel)
    requires
        v.len() == old_rest.len() + 1,
        node_model(v[0]) == m,
        forall|k: int| 0 <= k < old_rest.len() ==> v[k + 1] == #[trigger] old_rest[k],
    ensures
        nodes_model(v) == seq![m] + nodes_model(old_rest),
{
    crate::xml::lemma_nodes_model_len(v);
    crate::xml::lemma_nodes_model_len(old_rest);
    assert forall|k: int| 0 <= k < v.len() implies #[trigger] nodes_model(v)[k] == (seq![m]
        + nodes_model(old_rest))[k] by {
        if k > 0 {
            assert(v[k] == old_rest[k - 1]);
        }
    }
    assert(nodes_model(v) =~= seq![m] + nodes_model(old_rest));
}

/// An opening tag alone, for the stream root.
pub(crate) fn e_p_open_tag(s: &str, i: usize) -> (r: PStep<(String, Vec<RawAttribute>)>)
    requires
        i <= s@.len(),
    ensures
        match r {
            PStep::Found(x, j) => p_open_tag(s@, i as int) == Parsed::Found(
                (x.0@, raws_view(x.1@)),
                j as int,
            ) && i < j <= s@.len(),
            PStep::NeedMore => p_open_tag(s@, i as int) is NeedMore,
            PStep::Reject => p_open_tag(s@, i as int) is Reject,
        },
{
    let n = s.unicode_len();
    if i == n {
        return PStep::NeedMore;
    }
    if s.get_char(i) != '<' {
        return PStep::Reject;
    }
    match e_p_name(s, i + 1) {
        PStep::Found(rawname, j) => {
            match e_p_attr_list(s, j) {
                PStep::Found(raws, k) => {
                    if s.get_char(k) != '>' {
                        PStep::Reject
                    } else {
                        PStep::Found((rawname, raws), k + 1)
                    }
                },
                PStep::NeedMore => PStep::NeedMore,
                PStep::Reject => PStep::Reject,
            }
        },
        PStep::NeedMore => PStep::NeedMore,
        PStep::Reject => PStep::Reject,
    }
}

/// Whether a resolved tag name is the stream root: local name `stream`
/// in the streams namespace.
pub fn valid_stream_tag(name: &str, namespace: &Option<String>) -> (r: bool)
    ensures
        r == (name@ == "stream"@ && crate::xml::opt_string_view(*namespace) == Some(
            "http://etherx.jabber.org/streams"@,
        )),
{
    if !str_eq(name, "stream") {
        return false;
    }
    match namespace {
        Some(uri) => str_eq(uri.as_str(), crate::xml::namespaces::ns_xmpp_streams()),
        None => false,
    }
}

/// One frame of the stream: the stream header once, then one element per
/// top-level child of the stream root.
pub enum Frame {
    StreamStart(StreamHeader),
    XmlFragment(Element),
}

/// What one polling step of the streaming parser produced.
pub enum ParserEvent {
    /// The buffer holds no complete item; feed more input.
    NeedMore,
    /// A complete frame.
    Item(Frame),
    /// The stream closing tag: no more frames follow.
    Closed,
    /// A fatal parse error; no more frames follow.
    Failed,
}

/// The value of the first raw attribute with the given name, if any.
pub open spec fn raw_lookup(raws: Seq<AttrRaw>, name: Seq<char>) -> Option<Seq<char>>
    decreases raws.len(),
{
    if raws.len() == 0 {
        None
    } else if raws[0].name == name {
        Some(raws[0].value)
    } else {
        raw_lookup(raws.drop_first(), name)
    }
}

/// The header carried by the stream root's raw attributes: `from`, `to`
/// and `xml:lang` are read, an unparsable JID is dropped, the inbound
/// `id` is ignored.
pub open spec fn header_of(raws: Seq<AttrRaw>) -> crate::xmpp::stream_header::HeaderModel {
    crate::xmpp::stream_header::HeaderModel {
        from: match raw_lookup(raws, "from"@) {
            Some(v) => crate::jid::parse_jid_spec(v),
            None => None,
        },
        to: match raw_lookup(raws, "to"@) {
            Some(v) => crate::jid::parse_jid_spec(v),
            None => None,
        },
        id: None,
        language: raw_lookup(raws, "xml:lang"@),
    }
}

/// Whether an opening tag is the stream root: its name resolves to
/// `stream` in the streams namespace under its own declarations.
pub open spec fn stream_root_ok(
    rawname: Seq<char>,
    raws: Seq<AttrRaw>,
    env: Seq<PrefixBinding>,
) -> bool {
    let env1 = env + raw_decls(raws);
    resolve_elem_ns(rawname, env1) == Some(Some("http://etherx.jabber.org/streams"@))
        && local_of(rawname) == "stream"@
}

/// The outcome of one polling step, as a function of the parser's state.
pub enum StreamStep {
    /// Whitespace consumed up to the given index; more input needed.
    NeedInput(int),
    /// The stream root's raw name and attributes, and the index past `>`.
    GotHeader(Seq<char>, Seq<AttrRaw>, int),
    /// A complete top-level element and the index past it.
    GotFragment(ElemModel, int),
    /// The stream closing tag and the index past it.
    GotClose(int),
    /// Malformed input.
    Bad,
}

/// One polling step: skip whitespace and processing instructions, then
/// the stream root when none was seen, the stream closing tag, or one
/// top-level element.
pub open spec fn stream_step(
    buf: Seq<char>,
    pos: int,
    env: Seq<PrefixBinding>,
    started: bool,
    root_raw: Seq<char>,
) -> StreamStep
    decreases buf.len() - pos,
{
    let w = scan_ws(buf, pos);
    if w >= buf.len() {
        StreamStep::NeedInput(w)
    } else if starts_with_at(buf, "<?"@, w) {
        let e = scan_to(buf, w + 2, "?>"@);
        if e >= buf.len() {
            StreamStep::NeedInput(w)
        } else {
            stream_step(buf, crate::xml::parse::bump(buf, pos, e + 2), env, started, root_raw)
        }
    } else if !started {
        match p_open_tag(buf, w) {
            Parsed::Found((rawname, raws), j) => if stream_root_ok(rawname, raws, env) {
                StreamStep::GotHeader(rawname, raws, j)
            } else {
                StreamStep::Bad
            },
            Parsed::NeedMore => StreamStep::NeedInput(w),
            Parsed::Reject => StreamStep::Bad,
        }
    } else if buf[w] == '<' && w + 1 < buf.len() && buf[w + 1] == '/' {
        match p_close_tag(buf, w, root_raw) {
            Parsed::Found(_, z) => StreamStep::GotClose(z),
            Parsed::NeedMore => StreamStep::NeedInput(w),
            Parsed::Reject => StreamStep::Bad,
        }
    } else {
        match p_element(buf, w, env) {
            Parsed::Found(el, j) => StreamStep::GotFragment(el, j),
            Parsed::NeedMore => StreamStep::NeedInput(w),
            Parsed::Reject => StreamStep::Bad,
        }
    }
}

/// The first raw attribute with the given name.
fn e_raw_lookup(raws: &Vec<RawAttribute>, name: &str) -> (r: Option<String>)
    ensures
        crate::xml::opt_string_view(r) == raw_lookup(raws_view(raws@), name@),
{
    let ghost rvs = raws_view(raws@);
    let n = raws.len();
    proof {
        assert(rvs.skip(0) =~= rvs);
    }
    for i in 0..n
        invariant
            n == raws.len(),
            rvs == raws_view(raws@),
            raw_lookup(rvs, name@) == raw_lookup(rvs.skip(i as int), name@),
    {
        proof {
            assert(rvs.skip(i as int)[0] == rvs[i as int]);
            assert(rvs.skip(i as int).drop_first() =~= rvs.skip(i + 1));
            assert(rvs[i as int] == raws@[i as int]@);
        }
        if str_eq(raws[i].name.as_str(), name) {
            return Some(raws[i].value.clone());
        }
    }
    proof {
        assert(rvs.skip(n as int) =~= Seq::<AttrRaw>::empty());
    }
    None
}

/// The stream header carried by the raw attributes.
fn make_header(raws: &Vec<RawAttribute>) -> (r: StreamHeader)
    ensures
        r@ == header_of(raws_view(raws@)),
{
    let from = match e_raw_lookup(raws, "from") {
        Some(v) => match Jid::parse_text(v.as_str()) {
            Ok(j) => Some(j),
            Err(_) => None,
        },
        None => None,
    };
    let to = match e_raw_lookup(raws, "to") {
        Some(v) => match Jid::parse_text(v.as_str()) {
            Ok(j) => Some(j),
            Err(_) => None,
        },
        None => None,
    };
    let language = match e_raw_lookup(raws, "xml:lang") {
        Some(v) => Some(LanguageTag(v)),
        None => None,
    };
    let h = StreamHeader { from, to, id: None, language };
    proof {
        assert(h@ =~= header_of(raws_view(raws@)));
    }
    h
}

/// The streaming parser: fed characters, it yields frames on demand and
/// never writes. A fresh parser holds no buffered input.
pub struct StreamParser {
    buf: String,
    pos: usize,
    env: Vec<PrefixPair>,
    started: bool,
    root_raw: String,
    closed: bool,
    failed: bool,
}

impl StreamParser {
    /// What the parser has consumed so far, in characters.
    pub closed spec fn consumed(&self) -> int {
        self.pos as int
    }

    /// The buffered input.
    pub closed spec fn buffered(&self) -> Seq<char> {
        self.buf@
    }

    /// Whether the stream header was seen.
    pub closed spec fn is_started(&self) -> bool {
        self.started
    }

    /// Whether the stream ended, by closing tag or fatal error.
    pub closed spec fn is_done(&self) -> bool {
        self.closed || self.failed
    }

    /// The prefix bindings in scope for fragments.
    pub closed spec fn bindings(&self) -> Seq<PrefixBinding> {
        penv_of(self.env@)
    }

    /// The raw name of the stream root.
    pub closed spec fn root_name(&self) -> Seq<char> {
        self.root_raw@
    }

    /// A fresh parser: empty buffer, the reserved bindings, no stream
    /// seen yet.
    pub fn new() -> (r: StreamParser)
        ensures
            r.buffered().len() == 0,
            r.consumed() == 0,
            !r.is_started(),
            !r.is_done(),
            r.bindings() == crate::xml::round_trip::initial_penv(),
    {
        let mut env: Vec<PrefixPair> = Vec::new();
        env.push(
            PrefixPair {
                prefix: "xml".to_owned(),
                uri: crate::xml::namespaces::ns_xml().to_owned(),
            },
        );
        env.push(
            PrefixPair {
                prefix: "xmlns".to_owned(),
                uri: crate::xml::namespaces::ns_xmlns().to_owned(),
            },
        );
        let r = StreamParser {
            buf: String::new(),
            pos: 0,
            env,
            started: false,
            root_raw: String::new(),
            closed: false,
            failed: false,
        };
        proof {
            assert(r.bindings() =~= crate::xml::round_trip::initial_penv());
        }
        r
    }

    /// Appends input characters. Nothing is parsed yet.
    pub fn feed(&mut self, chunk: &str)
        ensures
            final(self).buffered() == old(self).buffered() + chunk@,
            final(self).consumed() == old(self).consumed(),
            final(self).is_started() == old(self).is_started(),
            final(self).is_done() == old(self).is_done(),
            final(self).bindings() == old(self).bindings(),
            final(self).root_name() == old(self).root_name(),
    {
        self.buf.append(chunk);
    }

    /// Polls for the next frame. The decision is exactly
    /// [`stream_step`] on the buffered input at the consumed position.
    #[verifier::rlimit(100)]
    pub fn next_frame(&mut self) -> (r: ParserEvent)
        requires
            old(self).consumed() <= old(self).buffered().len(),
        ensures
            final(self).buffered() == old(self).buffered(),
            old(self).consumed() <= final(self).consumed() <= final(self).buffered().len(),
            old(self).is_done() ==> *final(self) == *old(self) && (r is Closed || r is Failed),
            !old(self).is_done() ==> ({
                let step = stream_step(
                    old(self).buffered(),
                    old(self).consumed(),
                    old(self).bindings(),
                    old(self).is_started(),
                    old(self).root_name(),
                );
                let fin_consumed = final(self).consumed();
                let fin_started = final(self).is_started();
                let fin_bind = final(self).bindings();
                let fin_root = final(self).root_name();
                let fin_done = final(self).is_done();
                let old_started = old(self).is_started();
                let old_bind = old(self).bindings();
                let old_root = old(self).root_name();
                match r {
                    ParserEvent::NeedMore => step matches StreamStep::NeedInput(w)
                        && fin_consumed == w && fin_started == old_started && fin_bind == old_bind
                        && fin_root == old_root && !fin_done,
                    ParserEvent::Item(Frame::StreamStart(h)) => step matches StreamStep::GotHeader(
                        rn,
                        raws,
                        j,
                    ) && h@ == header_of(raws) && fin_consumed == j && fin_started && fin_bind
                        == old_bind + raw_decls(raws) && fin_root == rn && !fin_done,
                    ParserEvent::Item(Frame::XmlFragment(el)) => step matches
                        StreamStep::GotFragment(em, j) && el@ == em && fin_consumed == j
                        && fin_started && fin_bind == old_bind && fin_root == old_root
                        && !fin_done,
                    ParserEvent::Closed => step matches StreamStep::GotClose(z) && fin_consumed
                        == z && fin_done,
                    ParserEvent::Failed => step is Bad && fin_done,
                }
            }),
    {
        if self.failed {
            return ParserEvent::Failed;
        }
        if self.closed {
            return ParserEvent::Closed;
        }
        let ghost buf0 = self.buf@;
        let ghost pos0 = self.pos as int;
        let ghost env0 = penv_of(self.env@);
        let ghost started0 = self.started;
        let ghost root0 = self.root_raw@;
        loop
            invariant
                !self.failed,
                !self.closed,
                self.buf@ == buf0,
                buf0 == old(self).buffered(),
                pos0 == old(self).consumed(),
                env0 == old(self).bindings(),
                started0 == old(self).is_started(),
                root0 == old(self).root_name(),
                !old(self).is_done(),
                pos0 <= self.pos <= buf0.len(),
                penv_of(self.env@) == env0,
                self.started == started0,
                self.root_raw@ == root0,
                stream_step(buf0, pos0, env0, started0, root0) == stream_step(
                    buf0,
                    self.pos as int,
                    env0,
                    started0,
                    root0,
                ),
            decreases buf0.len() - self.pos,
        {
            proof {
                reveal_strlit("<?");
                reveal_strlit("?>");
            }
            let ghost p0 = self.pos as int;
            let w = e_scan_ws(self.buf.as_str(), self.pos);
            self.pos = w;
            let n = self.buf.as_str().unicode_len();
            if w == n {
                return ParserEvent::NeedMore;
            }
            if e_starts_with_at(self.buf.as_str(), "<?", w) {
                let e = e_scan_to(self.buf.as_str(), "?>", w + 2);
                if e == n {
                    return ParserEvent::NeedMore;
                }
                proof {
                    lemma_scan_to_match(buf0, w + 2, "?>"@);
                    assert(crate::xml::parse::bump(buf0, p0, e + 2) == e + 2);
                }
                self.pos = e + 2;
            } else if !self.started {
                match e_p_open_tag(self.buf.as_str(), w) {
                    PStep::Found(x, j) => {
                        let (rawname, raws) = x;
                        let env1 = extend_env(&self.env, &raws);
                        let ok = match e_resolve_elem_ns(rawname.as_str(), &env1) {
                            Ok(Some(u)) => {
                                let (_p, local) = e_split_qname(rawname.as_str());
                                str_eq(u.as_str(), crate::xml::namespaces::ns_xmpp_streams())
                                    && str_eq(local.as_str(), "stream")
                            },
                            _ => false,
                        };
                        if ok {
                            let header = make_header(&raws);
                            self.env = env1;
                            self.started = true;
                            self.root_raw = rawname;
                            self.pos = j;
                            return ParserEvent::Item(Frame::StreamStart(header));
                        } else {
                            self.failed = true;
                            return ParserEvent::Failed;
                        }
                    },
                    PStep::NeedMore => {
                        return ParserEvent::NeedMore;
                    },
                    PStep::Reject => {
                        self.failed = true;
                        return ParserEvent::Failed;
                    },
                }
            } else if self.buf.as_str().get_char(w) == '<' && w + 1 < n && self.buf.as_str()
                .get_char(w + 1) == '/' {
                let root = self.root_raw.clone();
                match e_p_close_tag(self.buf.as_str(), w, root.as_str()) {
                    PStep::Found(_, z) => {
                        self.pos = z;
                        self.closed = true;
                        return ParserEvent::Closed;
                    },
                    PStep::NeedMore => {
                        return ParserEvent::NeedMore;
                    },
                    PStep::Reject => {
                        self.failed = true;
                        return ParserEvent::Failed;
                    },
                }
            } else {
                match e_p_element(self.buf.as_str(), w, &self.env) {
                    PStep::Found(el, j) => {
                        self.pos = j;
                        return ParserEvent::Item(Frame::XmlFragment(el));
                    },
                    PStep::NeedMore => {
                        return ParserEvent::NeedMore;
                    },
                    PStep::Reject => {
                        self.failed = true;
                        return ParserEvent::Failed;
                    },
                }
            }
        }
    }
}

} // verus!
