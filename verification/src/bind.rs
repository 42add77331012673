//! Resource binding: answering the `<iq type="set">` bind request.

use vstd::prelude::*;

use crate::crypto::generate_resource;
use crate::jid::Jid;
use crate::xml::{
    attr_lookup, first_matching_child, text_of, AttrModel, Element, ElemModel, NodeModel,
};

verus! {

/// A resource accepted by the binding step.
pub struct BoundResource(pub String);

/// Error of a malformed bind request.
#[derive(Debug)]
pub enum BindError {
    NotAnIq,
    NotASet,
    MissingId,
    MissingBind,
    UnknownEntity,
}

/// The advertised `<bind/>` feature.
pub open spec fn bind_feature_model() -> ElemModel {
    ElemModel {
        name: "bind"@,
        ns: Some("urn:ietf:params:xml:ns:xmpp-bind"@),
        attrs: seq![
            AttrModel {
                name: "xmlns"@,
                ns: None,
                value: "urn:ietf:params:xml:ns:xmpp-bind"@,
            },
        ],
        children: Seq::empty(),
    }
}

/// The result IQ: it echoes the request id and carries the bound JID as
/// text.
pub open spec fn bind_result_model(request_id: Seq<char>, jid: Seq<char>) -> ElemModel {
    ElemModel {
        name: "iq"@,
        ns: None,
        attrs: seq![
            AttrModel { name: "id"@, ns: None, value: request_id },
            AttrModel { name: "type"@, ns: None, value: "result"@ },
        ],
        children: seq![
            NodeModel::Elem(
                ElemModel {
                    name: "bind"@,
                    ns: Some("urn:ietf:params:xml:ns:xmpp-bind"@),
                    attrs: seq![
                        AttrModel {
                            name: "xmlns"@,
                            ns: None,
                            value: "urn:ietf:params:xml:ns:xmpp-bind"@,
                        },
                    ],
                    children: seq![
                        NodeModel::Elem(
                            ElemModel {
                                name: "jid"@,
                                ns: None,
                                attrs: Seq::empty(),
                                children: seq![NodeModel::Text(jid)],
                            },
                        ),
                    ],
                },
            ),
        ],
    }
}

/// Whether a bind request is acceptable: a `{jabber:client}` iq of type
/// `set` with an id, carrying a `{urn:ietf:params:xml:ns:xmpp-bind}bind`
/// child, for a known entity.
pub open spec fn bind_request_accepted(el: ElemModel, entity: Option<crate::jid::JidModel>) -> bool {
    &&& el.name == "iq"@
    &&& el.ns == Some("jabber:client"@)
    &&& attr_lookup(el.attrs, "type"@, None) == Some("set"@)
    &&& attr_lookup(el.attrs, "id"@, None) is Some
    &&& first_matching_child(el.children, "bind"@, Some("urn:ietf:params:xml:ns:xmpp-bind"@))
        is Some
    &&& entity is Some
}

/// Negotiates resource binding for the authenticated entity.
pub struct ResourceBindingNegotiator {
    _private: (),
}

impl ResourceBindingNegotiator {
    /// A negotiator; it holds no state.
    pub fn new() -> (r: ResourceBindingNegotiator)
        ensures
            true,
    {
        ResourceBindingNegotiator { _private: () }
    }

    /// The advertised `<bind/>` feature element.
    pub fn advertise_feature() -> (r: Element)
        ensures
            r@ == bind_feature_model(),
    {
        let mut e = Element::new("bind", Some(crate::xml::namespaces::ns_xmpp_bind()));
        e.set_attribute("xmlns", None, crate::xml::namespaces::ns_xmpp_bind());
        proof {
            assert(e@ =~~= bind_feature_model());
        }
        e
    }

    /// Answers a bind request: the resource is the requested text, or a
    /// fresh server-assigned one — thirty-six characters of hex and
    /// hyphens, hence never empty — when the request names none. The
    /// reply echoes the request's id and carries the bound JID.
    pub fn negotiate_feature(element: &Element, entity: &Option<Jid>) -> (r: Result<
        (Element, Jid),
        BindError,
    >)
        ensures
            (r is Ok) == bind_request_accepted(element@, crate::jid::opt_jid_model(*entity)),
            match r {
                Ok((reply, bound)) => ({
                    &&& element@.name == "iq"@
                    &&& element@.ns == Some("jabber:client"@)
                    &&& attr_lookup(element@.attrs, "type"@, None) == Some("set"@)
                    &&& attr_lookup(element@.attrs, "id"@, None) matches Some(request_id)
                    &&& entity matches Some(e)
                    &&& bound@.local == e@.local
                    &&& bound@.domain == e@.domain
                    &&& match first_matching_child(
                        first_matching_child(
                            element@.children,
                            "bind"@,
                            Some("urn:ietf:params:xml:ns:xmpp-bind"@),
                        ).unwrap().children,
                        "resource"@,
                        Some("urn:ietf:params:xml:ns:xmpp-bind"@),
                    ) {
                        Some(req) => bound@.resource == Some(text_of(req)),
                        None => bound@.resource matches Some(res) && res.len() == 36,
                    }
                    &&& reply@ == bind_result_model(request_id, crate::jid::jid_text(bound@))
                }),
                Err(_) => true,
            },
    {
        let name_ok = element.validate("iq", Some(crate::xml::namespaces::ns_xmpp_client()));
        if !name_ok {
            return Err(BindError::NotAnIq);
        }
        let type_ok = match element.attribute("type", None) {
            Some(t) => crate::xml::str_eq(t, "set"),
            None => false,
        };
        if !type_ok {
            return Err(BindError::NotASet);
        }
        let request_id = match element.attribute("id", None) {
            Some(id) => id.to_owned(),
            None => {
                return Err(BindError::MissingId);
            },
        };
        let bind_request = match element.find_child(
            "bind",
            Some(crate::xml::namespaces::ns_xmpp_bind()),
        ) {
            Some(b) => b,
            None => {
                return Err(BindError::MissingBind);
            },
        };
        let resource = BoundResource(
            match bind_request.find_child(
                "resource",
                Some(crate::xml::namespaces::ns_xmpp_bind()),
            ) {
                Some(req) => req.text(),
                None => generate_resource(),
            },
        );
        let entity = match entity {
            Some(e) => e,
            None => {
                return Err(BindError::UnknownEntity);
            },
        };
        let bound = entity.bind(resource.0);
        let jid_string = bound.as_text();
        let mut jid_el = Element::new("jid", None);
        jid_el.add_text(jid_string.as_str());
        let mut bind_el = Element::new("bind", Some(crate::xml::namespaces::ns_xmpp_bind()));
        bind_el.set_attribute("xmlns", None, crate::xml::namespaces::ns_xmpp_bind());
        bind_el.add_child(jid_el);
        let mut reply = Element::new("iq", None);
        reply.set_attribute("id", None, request_id.as_str());
        reply.set_attribute("type", None, "result");
        reply.add_child(bind_el);
        proof {
            reveal_strlit("id");
            reveal_strlit("type");
            assert("id"@.len() == 2);
            assert("type"@.len() == 4);
            assert("id"@ != "type"@);
            assert(jid_el@.children =~= seq![NodeModel::Text(jid_string@)]);
            assert(bind_el@.attrs =~= seq![
                AttrModel {
                    name: "xmlns"@,
                    ns: None,
                    value: "urn:ietf:params:xml:ns:xmpp-bind"@,
                },
            ]);
            assert(bind_el@.children =~= seq![NodeModel::Elem(jid_el@)]);
            let a_id = AttrModel { name: "id"@, ns: None, value: request_id@ };
            let a_ty = AttrModel { name: "type"@, ns: None, value: "result"@ };
            assert(seq![a_id].drop_first() =~= Seq::<AttrModel>::empty());
            assert(attr_lookup(Seq::empty(), "id"@, None) is None);
            assert(crate::xml::attr_set(Seq::empty(), "id"@, None, request_id@) =~= seq![a_id]);
            assert(crate::xml::attr_set(seq![a_id], "type"@, None, "result"@) =~= seq![a_id]
                + crate::xml::attr_set(seq![a_id].drop_first(), "type"@, None, "result"@)) by {
                assert(seq![a_id][0] == a_id);
                assert(seq![seq![a_id][0]] =~= seq![a_id]);
            }
            assert(crate::xml::attr_set(seq![a_id], "type"@, None, "result"@) =~= seq![
                a_id,
                a_ty,
            ]);
            assert(reply@.attrs == crate::xml::attr_set(
                crate::xml::attr_set(Seq::empty(), "id"@, None, request_id@),
                "type"@,
                None,
                "result"@,
            ));
            assert(reply@.attrs =~= seq![
                AttrModel { name: "id"@, ns: None, value: request_id@ },
                AttrModel { name: "type"@, ns: None, value: "result"@ },
            ]);
            assert(reply@.children =~= seq![NodeModel::Elem(bind_el@)]);
            assert(reply@ =~~= bind_result_model(request_id@, crate::jid::jid_text(bound@)));
        }
        Ok((reply, bound))
    }
}

} // verus!
