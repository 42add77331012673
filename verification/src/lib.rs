//! Server-side engine of an XMPP client-facing endpoint.
//!
//! The crate models the per-connection inbound stream: XML element trees,
//! the streaming fragment parser, the namespace-aware writer, the feature
//! negotiation state machine (STARTTLS, SASL, resource binding), the SCRAM
//! mechanisms with their stored-password formats, and the routing table.
//! All I/O stays outside; the types here work on plain values.

pub mod bind;
pub mod crypto;
pub mod engine;
pub mod jid;
pub mod router;
pub mod sasl;
pub mod scram;
pub mod starttls;
pub mod store;
pub mod xml;
pub mod xmpp;
