//! The stream wrapper: one parser and one writer over one connection.
//!
//! A *reset* rebuilds both around the same connection: the new parser
//! holds no byte fed before the reset, and the new writer starts from the
//! reserved bindings — nothing produced before the reset reaches the new
//! pair.

use vstd::prelude::*;

use crate::xml::parser::StreamParser;
use crate::xml::writer::StreamWriter;

verus! {

/// Error of an upgrade request on a channel that is already secure.
#[derive(Debug)]
pub enum UpgradeError {
    AlreadySecure,
}

/// One XMPP stream: the parser and writer halves and the channel's three
/// flags. The socket itself lives outside; bytes move through `reader`
/// and the strings the writer yields.
pub struct XmppStream {
    pub parser: StreamParser,
    pub writer: StreamWriter,
    pub starttls_allowed: bool,
    pub secure: bool,
    pub authenticated: bool,
}

impl XmppStream {
    /// A fresh stream over a connection with the given flags.
    pub fn new(starttls_allowed: bool, secure: bool, authenticated: bool) -> (r: XmppStream)
        ensures
            r.is_starttls_allowed_spec() == starttls_allowed,
            r.is_secure_spec() == secure,
            r.is_authenticated_spec() == authenticated,
            r.parser_state().buffered().len() == 0,
            r.parser_state().consumed() == 0,
            !r.parser_state().is_started(),
            !r.parser_state().is_done(),
            r.writer_state().frame_models() == crate::xml::ser::initial_env(),
    {
        XmppStream {
            parser: StreamParser::new(),
            writer: StreamWriter::new(),
            starttls_allowed,
            secure,
            authenticated,
        }
    }

    /// Drops the parser and writer and builds fresh ones over the same
    /// connection: no byte fed before the reset stays buffered, no
    /// namespace binding survives, the flags are kept.
    pub fn reset(&mut self)
        ensures
            final(self).is_starttls_allowed_spec() == old(self).is_starttls_allowed_spec(),
            final(self).is_secure_spec() == old(self).is_secure_spec(),
            final(self).is_authenticated_spec() == old(self).is_authenticated_spec(),
            final(self).parser_state().buffered().len() == 0,
            final(self).parser_state().consumed() == 0,
            !final(self).parser_state().is_started(),
            !final(self).parser_state().is_done(),
            final(self).writer_state().frame_models() == crate::xml::ser::initial_env(),
    {
        self.parser = StreamParser::new();
        self.writer = StreamWriter::new();
    }

    /// Records a completed TLS upgrade: the new channel's flags replace
    /// the old ones and the stream is reset. Upgrading a channel that is
    /// already secure fails and changes nothing.
    pub fn mark_upgraded(
        &mut self,
        starttls_allowed: bool,
        secure: bool,
        authenticated: bool,
    ) -> (r: Result<(), UpgradeError>)
        ensures
            (r is Ok) == !old(self).is_secure_spec(),
            match r {
                Ok(_) => ({
                    &&& final(self).is_starttls_allowed_spec() == starttls_allowed
                    &&& final(self).is_secure_spec() == secure
                    &&& final(self).is_authenticated_spec() == authenticated
                    &&& final(self).parser_state().buffered().len() == 0
                    &&& final(self).parser_state().consumed() == 0
                    &&& !final(self).parser_state().is_started()
                    &&& !final(self).parser_state().is_done()
                    &&& final(self).writer_state().frame_models()
                        == crate::xml::ser::initial_env()
                }),
                Err(_) => *final(self) == *old(self),
            },
    {
        if self.secure {
            return Err(UpgradeError::AlreadySecure);
        }
        self.starttls_allowed = starttls_allowed;
        self.secure = secure;
        self.authenticated = authenticated;
        self.reset();
        Ok(())
    }

    /// Whether the channel may offer STARTTLS.
    pub fn is_starttls_allowed(&self) -> (r: bool)
        ensures
            r == self.is_starttls_allowed_spec(),
    {
        self.starttls_allowed
    }

    /// Whether the channel is TLS.
    pub fn is_secure(&self) -> (r: bool)
        ensures
            r == self.is_secure_spec(),
    {
        self.secure
    }

    /// Whether the peer presented a validated certificate.
    pub fn is_authenticated(&self) -> (r: bool)
        ensures
            r == self.is_authenticated_spec(),
    {
        self.authenticated
    }

    /// The reading half.
    pub fn reader(&mut self) -> (r: &mut StreamParser)
        ensures
            *final(r) == final(self).parser,
            final(self).writer == old(self).writer,
            final(self).starttls_allowed == old(self).starttls_allowed,
            final(self).secure == old(self).secure,
            final(self).authenticated == old(self).authenticated,
    {
        &mut self.parser
    }

    /// The writing half.
    pub fn writer(&mut self) -> (r: &mut StreamWriter)
        ensures
            *final(r) == final(self).writer,
            final(self).parser == old(self).parser,
            final(self).starttls_allowed == old(self).starttls_allowed,
            final(self).secure == old(self).secure,
            final(self).authenticated == old(self).authenticated,
    {
        &mut self.writer
    }

    /// The parser half's state.
    pub open spec fn parser_state(&self) -> StreamParser {
        self.parser
    }

    /// Whether STARTTLS may be offered, as a mathematical value.
    pub open spec fn is_starttls_allowed_spec(&self) -> bool {
        self.starttls_allowed
    }

    /// Whether the channel is TLS, as a mathematical value.
    pub open spec fn is_secure_spec(&self) -> bool {
        self.secure
    }

    /// Whether the peer authenticated, as a mathematical value.
    pub open spec fn is_authenticated_spec(&self) -> bool {
        self.authenticated
    }

    /// The writer half's state.
    pub open spec fn writer_state(&self) -> StreamWriter {
        self.writer
    }
}

} // verus!
