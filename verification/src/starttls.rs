//! STARTTLS negotiation: the advertised feature, the request check, and
//! the `<proceed/>` answer. The TLS handshake itself happens outside.

use vstd::prelude::*;

use crate::xml::{AttrModel, Element, ElemModel};

verus! {

/// Negotiates the TLS upgrade.
pub struct StarttlsNegotiator {
    _private: (),
}

/// The advertised `<starttls/>` feature.
pub open spec fn starttls_feature_model() -> ElemModel {
    ElemModel {
        name: "starttls"@,
        ns: Some("urn:ietf:params:xml:ns:xmpp-tls"@),
        attrs: seq![
            AttrModel {
                name: "xmlns"@,
                ns: None,
                value: "urn:ietf:params:xml:ns:xmpp-tls"@,
            },
        ],
        children: Seq::empty(),
    }
}

/// The `<proceed/>` answer.
pub open spec fn proceed_model() -> ElemModel {
    ElemModel {
        name: "proceed"@,
        ns: Some("urn:ietf:params:xml:ns:xmpp-tls"@),
        attrs: seq![
            AttrModel {
                name: "xmlns"@,
                ns: None,
                value: "urn:ietf:params:xml:ns:xmpp-tls"@,
            },
        ],
        children: Seq::empty(),
    }
}

impl StarttlsNegotiator {
    /// The advertised `<starttls/>` feature element.
    pub fn advertise_feature() -> (r: Element)
        ensures
            r@ == starttls_feature_model(),
    {
        let mut e = Element::new("starttls", Some(crate::xml::namespaces::ns_xmpp_starttls()));
        e.set_attribute("xmlns", None, crate::xml::namespaces::ns_xmpp_starttls());
        proof {
            assert(e@ =~~= starttls_feature_model());
        }
        e
    }

    /// Whether the element is the peer's `<starttls/>` request.
    pub fn is_starttls_request(element: &Element) -> (r: bool)
        ensures
            r == (element@.name == "starttls"@ && element@.ns == Some(
                "urn:ietf:params:xml:ns:xmpp-tls"@,
            )),
    {
        element.validate("starttls", Some(crate::xml::namespaces::ns_xmpp_starttls()))
    }

    /// The `<proceed/>` element answering the request; the caller then
    /// performs the handshake and resets the stream.
    pub fn proceed_element() -> (r: Element)
        ensures
            r@ == proceed_model(),
    {
        let mut e = Element::new("proceed", Some(crate::xml::namespaces::ns_xmpp_starttls()));
        e.set_attribute("xmlns", None, crate::xml::namespaces::ns_xmpp_starttls());
        proof {
            assert(e@ =~~= proceed_model());
        }
        e
    }
}

} // verus!
