//! The attributes of a stream header, and the stream identifier.

use vstd::prelude::*;

use crate::jid::{Jid, JidModel};

verus! {

/// Mathematical model of a stream header.
#[verifier::ext_equal]
pub struct HeaderModel {
    pub from: Option<JidModel>,
    pub to: Option<JidModel>,
    pub id: Option<Seq<char>>,
    pub language: Option<Seq<char>>,
}

/// An RFC 5646 language tag, kept as its textual form.
pub struct LanguageTag(pub String);

impl View for LanguageTag {
    type V = Seq<char>;

    open spec fn view(&self) -> Seq<char> {
        self.0@
    }
}

/// The opaque stream identifier: base64 of 16 random bytes.
pub struct StreamId(pub String);

impl View for StreamId {
    type V = Seq<char>;

    open spec fn view(&self) -> Seq<char> {
        self.0@
    }
}

impl StreamId {
    /// A fresh identifier: sixteen random bytes in base64.
    pub fn new() -> (r: StreamId)
        ensures
            exists|raw: Seq<u8>| raw.len() == 16 && r@ == crate::crypto::b64_of(raw),
    {
        let raw = crate::crypto::random_bytes_16();
        StreamId(crate::crypto::b64_encode(&raw))
    }

    /// Reads the identifier's textual form.
    pub fn as_str(&self) -> (r: &str)
        ensures
            r@ == self.0@,
    {
        self.0.as_str()
    }

    /// Copies the identifier.
    pub fn duplicate(&self) -> (r: StreamId)
        ensures
            r.0@ == self.0@,
    {
        StreamId(self.0.clone())
    }
}

/// The model of an optional language tag.
pub open spec fn opt_lang_model(o: Option<LanguageTag>) -> Option<Seq<char>> {
    match o {
        Some(l) => Some(l@),
        None => None,
    }
}

/// The fields of a stream header the engine reads or writes.
pub struct StreamHeader {
    pub from: Option<Jid>,
    pub to: Option<Jid>,
    pub id: Option<StreamId>,
    pub language: Option<LanguageTag>,
}

impl View for StreamHeader {
    type V = HeaderModel;

    open spec fn view(&self) -> HeaderModel {
        HeaderModel {
            from: match self.from {
                Some(j) => Some(j@),
                None => None,
            },
            to: match self.to {
                Some(j) => Some(j@),
                None => None,
            },
            id: match self.id {
                Some(x) => Some(x@),
                None => None,
            },
            language: match self.language {
                Some(x) => Some(x@),
                None => None,
            },
        }
    }
}

} // verus!
