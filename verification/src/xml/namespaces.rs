//! The namespace URIs the engine knows about.

use vstd::prelude::*;

verus! {

/// The reserved XML namespace, bound to the `xml` prefix.
pub fn ns_xml() -> (r: &'static str)
    ensures
        r@ == "http://www.w3.org/XML/1998/namespace"@,
{
    "http://www.w3.org/XML/1998/namespace"
}

/// The reserved XMLNS namespace, bound to the `xmlns` prefix.
pub fn ns_xmlns() -> (r: &'static str)
    ensures
        r@ == "http://www.w3.org/2000/xmlns/"@,
{
    "http://www.w3.org/2000/xmlns/"
}

/// The namespace of the stream root element.
pub fn ns_xmpp_streams() -> (r: &'static str)
    ensures
        r@ == "http://etherx.jabber.org/streams"@,
{
    "http://etherx.jabber.org/streams"
}

/// The default namespace of client-to-server streams.
pub fn ns_xmpp_client() -> (r: &'static str)
    ensures
        r@ == "jabber:client"@,
{
    "jabber:client"
}

/// The default namespace of server-to-server streams.
pub fn ns_xmpp_server() -> (r: &'static str)
    ensures
        r@ == "jabber:server"@,
{
    "jabber:server"
}

/// The SASL negotiation namespace.
pub fn ns_xmpp_sasl() -> (r: &'static str)
    ensures
        r@ == "urn:ietf:params:xml:ns:xmpp-sasl"@,
{
    "urn:ietf:params:xml:ns:xmpp-sasl"
}

/// The stream error condition namespace.
pub fn ns_xmpp_stream_errors() -> (r: &'static str)
    ensures
        r@ == "urn:ietf:params:xml:ns:xmpp-streams"@,
{
    "urn:ietf:params:xml:ns:xmpp-streams"
}

/// The resource binding namespace.
pub fn ns_xmpp_bind() -> (r: &'static str)
    ensures
        r@ == "urn:ietf:params:xml:ns:xmpp-bind"@,
{
    "urn:ietf:params:xml:ns:xmpp-bind"
}

/// The STARTTLS negotiation namespace.
pub fn ns_xmpp_starttls() -> (r: &'static str)
    ensures
        r@ == "urn:ietf:params:xml:ns:xmpp-tls"@,
{
    "urn:ietf:params:xml:ns:xmpp-tls"
}

} // verus!
