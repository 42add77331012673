//! XMPP stream concepts: headers, identifiers, the stream wrapper.

pub mod stream;
pub mod stream_header;
