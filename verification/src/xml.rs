//! In-memory model of namespace-qualified XML element trees.
//!
//! An element is a tuple of local name, optional namespace URI, attributes
//! keyed by `(name, optional namespace URI)`, and an ordered sequence of
//! child nodes. The mathematical model of a tree is given by [`ElemModel`]
//! and [`NodeModel`]; every exec operation is specified against it.

use vstd::prelude::*;

pub mod namespaces;
pub mod parse;
pub mod parser;
pub mod round_trip;
pub mod ser;
pub mod writer;

verus! {

/// Model of an attribute: key pair and value, as character sequences.
#[verifier::ext_equal]
pub struct AttrModel {
    pub name: Seq<char>,
    pub ns: Option<Seq<char>>,
    pub value: Seq<char>,
}

/// Model of a child node.
#[verifier::ext_equal]
pub enum NodeModel {
    Elem(ElemModel),
    Text(Seq<char>),
    CData(Seq<char>),
    Comment(Seq<char>),
    Pi(Seq<char>),
}

/// Model of an element tree.
#[verifier::ext_equal]
pub struct ElemModel {
    pub name: Seq<char>,
    pub ns: Option<Seq<char>>,
    pub attrs: Seq<AttrModel>,
    pub children: Seq<NodeModel>,
}

/// The view of an optional borrowed string.
pub open spec fn opt_str_view(s: Option<&str>) -> Option<Seq<char>> {
    match s {
        Some(x) => Some(x@),
        None => None,
    }
}

/// The view of an optional owned string.
pub open spec fn opt_string_view(s: Option<String>) -> Option<Seq<char>> {
    match s {
        Some(x) => Some(x@),
        None => None,
    }
}

/// An element with no attributes and no children.
pub open spec fn empty_elem_model(name: Seq<char>, ns: Option<Seq<char>>) -> ElemModel {
    ElemModel { name, ns, attrs: Seq::empty(), children: Seq::empty() }
}

/// First value bound to the attribute key `(name, ns)`, if any.
pub open spec fn attr_lookup(
    attrs: Seq<AttrModel>,
    name: Seq<char>,
    ns: Option<Seq<char>>,
) -> Option<Seq<char>>
    decreases attrs.len(),
{
    if attrs.len() == 0 {
        None
    } else if attrs[0].name == name && attrs[0].ns == ns {
        Some(attrs[0].value)
    } else {
        attr_lookup(attrs.drop_first(), name, ns)
    }
}

/// Result of binding `(name, ns)` to `value`: an existing entry is replaced
/// in place, a missing one is appended.
pub open spec fn attr_set(
    attrs: Seq<AttrModel>,
    name: Seq<char>,
    ns: Option<Seq<char>>,
    value: Seq<char>,
) -> Seq<AttrModel>
    decreases attrs.len(),
{
    if attrs.len() == 0 {
        seq![AttrModel { name, ns, value }]
    } else if attrs[0].name == name && attrs[0].ns == ns {
        seq![AttrModel { name, ns, value }] + attrs.drop_first()
    } else {
        seq![attrs[0]] + attr_set(attrs.drop_first(), name, ns, value)
    }
}

/// The first child element matching `(name, ns)`, if any.
pub open spec fn first_matching_child(
    children: Seq<NodeModel>,
    name: Seq<char>,
    ns: Option<Seq<char>>,
) -> Option<ElemModel>
    decreases children.len(),
{
    if children.len() == 0 {
        None
    } else {
        match children[0] {
            NodeModel::Elem(e) => {
                if e.name == name && e.ns == ns {
                    Some(e)
                } else {
                    first_matching_child(children.drop_first(), name, ns)
                }
            },
            _ => first_matching_child(children.drop_first(), name, ns),
        }
    }
}

/// Document-order concatenation of all text and CDATA below an element.
pub open spec fn text_of(e: ElemModel) -> Seq<char>
    decreases e,
{
    text_of_children(e.children)
}

/// Document-order concatenation of all text and CDATA in a node sequence.
pub open spec fn text_of_children(children: Seq<NodeModel>) -> Seq<char>
    decreases children,
{
    if children.len() == 0 {
        Seq::empty()
    } else {
        text_of_node(children[0]) + text_of_children(children.drop_first())
    }
}

/// Text contributed by one node: comments and processing instructions are
/// skipped, elements contribute recursively.
pub open spec fn text_of_node(n: NodeModel) -> Seq<char>
    decreases n,
{
    match n {
        NodeModel::Elem(e) => text_of_children(e.children),
        NodeModel::Text(s) => s,
        NodeModel::CData(s) => s,
        NodeModel::Comment(_) => Seq::empty(),
        NodeModel::Pi(_) => Seq::empty(),
    }
}

/// An attribute of an element: `(name, optional namespace URI) -> value`.
pub struct Attribute {
    pub(crate) name: String,
    pub(crate) namespace: Option<String>,
    pub(crate) value: String,
}

/// A child node of an element.
pub enum Node {
    Element(Element),
    Text(String),
    CData(String),
    Comment(String),
    ProcessingInstruction(String),
}

/// A namespace-qualified XML element.
pub struct Element {
    pub(crate) name: String,
    pub(crate) namespace: Option<String>,
    pub(crate) attributes: Vec<Attribute>,
    pub(crate) children: Vec<Node>,
}

pub(crate) closed spec fn attr_model(a: Attribute) -> AttrModel {
    AttrModel { name: a.name@, ns: opt_string_view(a.namespace), value: a.value@ }
}

pub(crate) closed spec fn attrs_model(s: Seq<Attribute>) -> Seq<AttrModel> {
    Seq::new(s.len(), |i: int| attr_model(s[i]))
}

pub(crate) closed spec fn node_model(n: Node) -> NodeModel
    decreases n,
{
    match n {
        Node::Element(e) => NodeModel::Elem(
            ElemModel {
                name: e.name@,
                ns: opt_string_view(e.namespace),
                attrs: attrs_model(e.attributes@),
                children: nodes_model(e.children@),
            },
        ),
        Node::Text(s) => NodeModel::Text(s@),
        Node::CData(s) => NodeModel::CData(s@),
        Node::Comment(s) => NodeModel::Comment(s@),
        Node::ProcessingInstruction(s) => NodeModel::Pi(s@),
    }
}

pub(crate) closed spec fn nodes_model(s: Seq<Node>) -> Seq<NodeModel>
    decreases s,
{
    if s.len() == 0 {
        Seq::empty()
    } else {
        seq![node_model(s[0])] + nodes_model(s.drop_first())
    }
}

pub(crate) proof fn lemma_nodes_model_len(s: Seq<Node>)
    ensures
        nodes_model(s).len() == s.len(),
        forall|i: int| 0 <= i < s.len() ==> #[trigger] nodes_model(s)[i] == node_model(s[i]),
    decreases s.len(),
{
    if s.len() > 0 {
        lemma_nodes_model_len(s.drop_first());
        assert forall|i: int| 0 <= i < s.len() implies #[trigger] nodes_model(s)[i] == node_model(
            s[i],
        ) by {
            if i > 0 {
                assert(nodes_model(s)[i] == nodes_model(s.drop_first())[i - 1]);
                assert(s.drop_first()[i - 1] == s[i]);
            }
        }
    }
}

pub(crate) proof fn lemma_nodes_model_push(s: Seq<Node>, n: Node)
    ensures
        nodes_model(s.push(n)) == nodes_model(s).push(node_model(n)),
{
    lemma_nodes_model_len(s);
    lemma_nodes_model_len(s.push(n));
    assert forall|i: int| 0 <= i < s.len() + 1 implies nodes_model(s.push(n))[i] == nodes_model(
        s,
    ).push(node_model(n))[i] by {
        if i < s.len() {
            assert(s.push(n)[i] == s[i]);
        } else {
            assert(s.push(n)[i] == n);
        }
    }
    assert(nodes_model(s.push(n)) =~= nodes_model(s).push(node_model(n)));
}

impl View for Attribute {
    type V = AttrModel;

    closed spec fn view(&self) -> AttrModel {
        attr_model(*self)
    }
}

impl View for Node {
    type V = NodeModel;

    closed spec fn view(&self) -> NodeModel {
        node_model(*self)
    }
}

impl View for Element {
    type V = ElemModel;

    closed spec fn view(&self) -> ElemModel {
        ElemModel {
            name: self.name@,
            ns: opt_string_view(self.namespace),
            attrs: attrs_model(self.attributes@),
            children: nodes_model(self.children@),
        }
    }
}

/// Compares two string slices by their character sequences.
pub fn str_eq(a: &str, b: &str) -> (r: bool)
    ensures
        r == (a@ == b@),
{
    let x = a.to_owned();
    let y = b.to_owned();
    x == y
}

/// Compares two optional string slices by their character sequences.
pub fn opt_str_eq(a: Option<&str>, b: Option<&str>) -> (r: bool)
    ensures
        r == (opt_str_view(a) == opt_str_view(b)),
{
    match (a, b) {
        (Some(x), Some(y)) => str_eq(x, y),
        (None, None) => true,
        _ => false,
    }
}

pub(crate) fn opt_string_as_deref(s: &Option<String>) -> (r: Option<&str>)
    ensures
        opt_str_view(r) == opt_string_view(*s),
{
    match s {
        Some(x) => Some(x.as_str()),
        None => None,
    }
}

pub(crate) fn opt_str_to_owned(s: Option<&str>) -> (r: Option<String>)
    ensures
        opt_string_view(r) == opt_str_view(s),
{
    match s {
        Some(x) => Some(x.to_owned()),
        None => None,
    }
}

impl Element {
    /// Builds an element with the given name and namespace, no attributes
    /// and no children.
    pub fn new(name: &str, namespace: Option<&str>) -> (r: Element)
        ensures
            r@ == empty_elem_model(name@, opt_str_view(namespace)),
    {
        let r = Element {
            name: name.to_owned(),
            namespace: opt_str_to_owned(namespace),
            attributes: Vec::new(),
            children: Vec::new(),
        };
        proof {
            assert(r@.attrs =~= Seq::<AttrModel>::empty());
            assert(r@.children =~= Seq::<NodeModel>::empty());
        }
        r
    }

    /// The element's local name.
    pub fn name_str(&self) -> (r: &str)
        ensures
            r@ == self@.name,
    {
        self.name.as_str()
    }

    /// True exactly when the element's name and namespace equal the given pair.
    pub fn validate(&self, name: &str, namespace: Option<&str>) -> (r: bool)
        ensures
            r == (self@.name == name@ && self@.ns == opt_str_view(namespace)),
    {
        str_eq(self.name.as_str(), name) && opt_str_eq(
            opt_string_as_deref(&self.namespace),
            namespace,
        )
    }

    /// The value bound to the attribute key `(name, namespace)`, if any.
    pub fn attribute(&self, name: &str, namespace: Option<&str>) -> (r: Option<&str>)
        ensures
            opt_str_view(r) == attr_lookup(self@.attrs, name@, opt_str_view(namespace)),
    {
        let ghost target_name = name@;
        let ghost target_ns = opt_str_view(namespace);
        let n = self.attributes.len();
        proof {
            assert(self@.attrs.skip(0) =~= self@.attrs);
        }
        for i in 0..n
            invariant
                n == self.attributes.len(),
                attr_lookup(self@.attrs, target_name, target_ns) == attr_lookup(
                    self@.attrs.skip(i as int),
                    target_name,
                    target_ns,
                ),
                target_name == name@,
                target_ns == opt_str_view(namespace),
        {
            let a = &self.attributes[i];
            proof {
                assert(self@.attrs.skip(i as int)[0] == self@.attrs[i as int]);
                assert(self@.attrs.skip(i as int).drop_first() =~= self@.attrs.skip(i + 1));
            }
            if str_eq(a.name.as_str(), name) && opt_str_eq(
                opt_string_as_deref(&a.namespace),
                namespace,
            ) {
                return Some(self.attributes[i].value.as_str());
            }
        }
        proof {
            assert(self@.attrs.skip(n as int) =~= Seq::<AttrModel>::empty());
        }
        None
    }

    /// Binds the attribute key `(name, namespace)` to `value`, replacing an
    /// existing binding in place and appending a new one otherwise.
    pub fn set_attribute(&mut self, name: &str, namespace: Option<&str>, value: &str)
        ensures
            final(self)@.name == old(self)@.name,
            final(self)@.ns == old(self)@.ns,
            final(self)@.children == old(self)@.children,
            final(self)@.attrs == attr_set(
                old(self)@.attrs,
                name@,
                opt_str_view(namespace),
                value@,
            ),
    {
        let ghost target_name = name@;
        let ghost target_ns = opt_str_view(namespace);
        let ghost orig = self@.attrs;
        let n = self.attributes.len();
        proof {
            assert(orig.skip(0) =~= orig);
            assert(orig.take(0) =~= Seq::<AttrModel>::empty());
            assert(orig.take(0) + attr_set(orig.skip(0), target_name, target_ns, value@)
                =~= attr_set(orig, target_name, target_ns, value@));
        }
        for i in 0..n
            invariant
                n == self.attributes.len(),
                orig == self@.attrs,
                old(self)@ == self@,
                target_name == name@,
                target_ns == opt_str_view(namespace),
                forall|k: int|
                    0 <= k < i ==> !(orig[k].name == target_name && orig[k].ns == target_ns),
                attr_set(orig, target_name, target_ns, value@) == orig.take(i as int) + attr_set(
                    orig.skip(i as int),
                    target_name,
                    target_ns,
                    value@,
                ),
        {
            let a = &self.attributes[i];
            proof {
                assert(orig.skip(i as int)[0] == orig[i as int]);
                assert(orig.skip(i as int).drop_first() =~= orig.skip(i + 1));
                assert(orig.take(i as int).push(orig[i as int]) =~= orig.take(i + 1));
            }
            if str_eq(a.name.as_str(), name) && opt_str_eq(
                opt_string_as_deref(&a.namespace),
                namespace,
            ) {
                self.attributes[i] = Attribute {
                    name: name.to_owned(),
                    namespace: opt_str_to_owned(namespace),
                    value: value.to_owned(),
                };
                proof {
                    let updated = Seq::new(
                        self.attributes@.len(),
                        |k: int| self.attributes@[k]@,
                    );
                    assert(seq![updated[i as int]] + orig.skip(i as int).drop_first() =~= updated.skip(
                        i as int,
                    ));
                    assert(orig.take(i as int) + updated.skip(i as int) =~= updated);
                    assert(final(self)@.attrs =~= attr_set(orig, target_name, target_ns, value@));
                }
                return ;
            }
            proof {
                assert(seq![orig[i as int]] + attr_set(
                    orig.skip(i + 1),
                    target_name,
                    target_ns,
                    value@,
                ) =~= orig.take(i + 1).skip(i as int) + attr_set(
                    orig.skip(i + 1),
                    target_name,
                    target_ns,
                    value@,
                )) by {
                    assert(seq![orig[i as int]] =~= orig.take(i + 1).skip(i as int));
                }
                assert(orig.take(i as int) + (orig.take(i + 1).skip(i as int) + attr_set(
                    orig.skip(i + 1),
                    target_name,
                    target_ns,
                    value@,
                )) =~= orig.take(i + 1) + attr_set(orig.skip(i + 1), target_name, target_ns, value@));
            }
        }
        proof {
            assert(orig.skip(n as int) =~= Seq::<AttrModel>::empty());
        }
        self.attributes.push(Attribute {
            name: name.to_owned(),
            namespace: opt_str_to_owned(namespace),
            value: value.to_owned(),
        });
        proof {
            let updated = Seq::new(self.attributes@.len(), |k: int| self.attributes@[k]@);
            assert(orig.take(n as int) =~= orig);
            assert(updated =~= orig + seq![
                AttrModel { name: target_name, ns: target_ns, value: value@ },
            ]);
            assert(final(self)@.attrs =~= attr_set(orig, target_name, target_ns, value@));
        }
    }

    /// The first child element whose name and namespace equal the given pair.
    pub fn find_child(&self, name: &str, namespace: Option<&str>) -> (r: Option<&Element>)
        ensures
            match r {
                Some(e) => first_matching_child(self@.children, name@, opt_str_view(namespace))
                    == Some(e@),
                None => first_matching_child(self@.children, name@, opt_str_view(namespace))
                    is None,
            },
    {
        let ghost target_name = name@;
        let ghost target_ns = opt_str_view(namespace);
        let n = self.children.len();
        proof {
            lemma_nodes_model_len(self.children@);
            assert(self@.children.skip(0) =~= self@.children);
        }
        for i in 0..n
            invariant
                n == self.children.len(),
                self@.children.len() == n,
                first_matching_child(self@.children, target_name, target_ns)
                    == first_matching_child(self@.children.skip(i as int), target_name, target_ns),
                target_name == name@,
                target_ns == opt_str_view(namespace),
        {
            proof {
                lemma_nodes_model_len(self.children@);
                assert(self@.children.skip(i as int)[0] == self@.children[i as int]);
                assert(self@.children.skip(i as int).drop_first() =~= self@.children.skip(i + 1));
                assert(self@.children[i as int] == node_model(self.children@[i as int]));
            }
            match &self.children[i] {
                Node::Element(e) => {
                    if e.validate(name, namespace) {
                        match &self.children[i] {
                            Node::Element(e) => { return Some(e); },
                            _ => { unreached::<()>(); },
                        }
                    }
                },
                _ => {},
            }
        }
        proof {
            assert(self@.children.skip(n as int) =~= Seq::<NodeModel>::empty());
        }
        None
    }

    /// The first child element whose name and namespace equal the given pair.
    pub fn child(&self, name: &str, namespace: Option<&str>) -> (r: Option<&Element>)
        ensures
            match r {
                Some(e) => first_matching_child(self@.children, name@, opt_str_view(namespace))
                    == Some(e@),
                None => first_matching_child(self@.children, name@, opt_str_view(namespace))
                    is None,
            },
    {
        self.find_child(name, namespace)
    }

    /// Concatenates the text and CDATA of the element and its descendants,
    /// in document order; comments and processing instructions are skipped.
    pub fn text(&self) -> (r: String)
        ensures
            r@ == text_of(self@),
        decreases *self,
    {
        let mut acc = String::new();
        let n = self.children.len();
        proof {
            lemma_nodes_model_len(self.children@);
            assert(self@.children.skip(0) =~= self@.children);
        }
        for i in 0..n
            invariant
                n == self.children.len(),
                self@.children.len() == n,
                acc@ + text_of_children(self@.children.skip(i as int)) == text_of(self@),
        {
            proof {
                lemma_nodes_model_len(self.children@);
                assert(self@.children.skip(i as int)[0] == self@.children[i as int]);
                assert(self@.children.skip(i as int).drop_first() =~= self@.children.skip(i + 1));
                assert(self@.children[i as int] == node_model(self.children@[i as int]));
            }
            let ghost acc0 = acc@;
            let ghost m = self@.children[i as int];
            match &self.children[i] {
                Node::Element(e) => {
                    let t = e.text();
                    acc.append(t.as_str());
                    proof {
                        assert(acc@ == acc0 + text_of_node(m));
                    }
                },
                Node::Text(s) => {
                    acc.append(s.as_str());
                    proof {
                        assert(acc@ == acc0 + text_of_node(m));
                    }
                },
                Node::CData(s) => {
                    acc.append(s.as_str());
                    proof {
                        assert(acc@ == acc0 + text_of_node(m));
                    }
                },
                Node::Comment(_) => {
                    proof {
                        assert(acc@ =~= acc0 + text_of_node(m));
                    }
                },
                Node::ProcessingInstruction(_) => {
                    proof {
                        assert(acc@ =~= acc0 + text_of_node(m));
                    }
                },
            }
            proof {
                assert(text_of_children(self@.children.skip(i as int)) == text_of_node(m)
                    + text_of_children(self@.children.skip(i + 1)));
                assert(acc@ + text_of_children(self@.children.skip(i + 1)) =~= acc0
                    + text_of_children(self@.children.skip(i as int)));
            }
        }
        proof {
            assert(self@.children.skip(n as int) =~= Seq::<NodeModel>::empty());
        }
        acc
    }

    /// Appends a child element.
    pub fn add_child(&mut self, element: Element)
        ensures
            final(self)@.name == old(self)@.name,
            final(self)@.ns == old(self)@.ns,
            final(self)@.attrs == old(self)@.attrs,
            final(self)@.children == old(self)@.children.push(NodeModel::Elem(element@)),
    {
        proof {
            lemma_nodes_model_push(self.children@, Node::Element(element));
        }
        self.children.push(Node::Element(element));
    }

    /// Appends a child element.
    pub fn add_element(&mut self, element: Element)
        ensures
            final(self)@.name == old(self)@.name,
            final(self)@.ns == old(self)@.ns,
            final(self)@.attrs == old(self)@.attrs,
            final(self)@.children == old(self)@.children.push(NodeModel::Elem(element@)),
    {
        self.add_child(element);
    }

    /// Builds a child with the given name and namespace, lets `f` fill
    /// it in, and appends it.
    pub fn with_child<F: FnOnce(Element) -> Element>(
        &mut self,
        name: &str,
        namespace: Option<&str>,
        f: F,
    )
        requires
            forall|e: Element|
                e@ == empty_elem_model(name@, opt_str_view(namespace)) ==> f.requires((e,)),
        ensures
            final(self)@.name == old(self)@.name,
            final(self)@.ns == old(self)@.ns,
            final(self)@.attrs == old(self)@.attrs,
            exists|e: Element, c: Element|
                e@ == empty_elem_model(name@, opt_str_view(namespace)) && #[trigger] f.ensures((e,), c)
                    && final(self)@.children == old(self)@.children.push(NodeModel::Elem(c@)),
    {
        let child = Element::new(name, namespace);
        let ghost e0 = child;
        let child = f(child);
        let ghost c0 = child;
        self.add_child(child);
        proof {
            assert(f.ensures((e0,), c0));
        }
    }

    /// Builds a child with the given name and namespace, lets `f` fill
    /// it in, and appends it.
    pub fn with_element<F: FnOnce(Element) -> Element>(
        &mut self,
        name: &str,
        namespace: Option<&str>,
        f: F,
    )
        requires
            forall|e: Element|
                e@ == empty_elem_model(name@, opt_str_view(namespace)) ==> f.requires((e,)),
        ensures
            final(self)@.name == old(self)@.name,
            final(self)@.ns == old(self)@.ns,
            final(self)@.attrs == old(self)@.attrs,
            exists|e: Element, c: Element|
                e@ == empty_elem_model(name@, opt_str_view(namespace)) && #[trigger] f.ensures((e,), c)
                    && final(self)@.children == old(self)@.children.push(NodeModel::Elem(c@)),
    {
        self.with_child(name, namespace, f);
    }

    /// Appends a text node.
    pub fn add_text(&mut self, text: &str)
        ensures
            final(self)@.name == old(self)@.name,
            final(self)@.ns == old(self)@.ns,
            final(self)@.attrs == old(self)@.attrs,
            final(self)@.children == old(self)@.children.push(NodeModel::Text(text@)),
    {
        let owned = text.to_owned();
        proof {
            lemma_nodes_model_push(self.children@, Node::Text(owned));
        }
        self.children.push(Node::Text(owned));
    }

    /// Appends a CDATA node.
    pub fn add_cdata(&mut self, cdata: &str)
        ensures
            final(self)@.name == old(self)@.name,
            final(self)@.ns == old(self)@.ns,
            final(self)@.attrs == old(self)@.attrs,
            final(self)@.children == old(self)@.children.push(NodeModel::CData(cdata@)),
    {
        let owned = cdata.to_owned();
        proof {
            lemma_nodes_model_push(self.children@, Node::CData(owned));
        }
        self.children.push(Node::CData(owned));
    }

    /// Appends a comment node.
    pub fn add_comment(&mut self, comment: &str)
        ensures
            final(self)@.name == old(self)@.name,
            final(self)@.ns == old(self)@.ns,
            final(self)@.attrs == old(self)@.attrs,
            final(self)@.children == old(self)@.children.push(NodeModel::Comment(comment@)),
    {
        let owned = comment.to_owned();
        proof {
            lemma_nodes_model_push(self.children@, Node::Comment(owned));
        }
        self.children.push(Node::Comment(owned));
    }

    /// Appends a processing-instruction node.
    pub fn add_processing_instruction(&mut self, pi: &str)
        ensures
            final(self)@.name == old(self)@.name,
            final(self)@.ns == old(self)@.ns,
            final(self)@.attrs == old(self)@.attrs,
            final(self)@.children == old(self)@.children.push(NodeModel::Pi(pi@)),
    {
        let owned = pi.to_owned();
        proof {
            lemma_nodes_model_push(self.children@, Node::ProcessingInstruction(owned));
        }
        self.children.push(Node::ProcessingInstruction(owned));
    }
}

} // verus!
