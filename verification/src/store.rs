//! The credential store interface and its in-memory backend.
//!
//! The store holds, per user, one entry of each stored-password kind as
//! text. The in-memory backend keeps a single user's entries and ignores
//! the JID, as a stand-in during tests and development.

use vstd::prelude::*;

use crate::jid::Jid;
use crate::xml::opt_string_view;

verus! {

/// The kinds of stored password the store can hold.
#[derive(Clone, Copy, PartialEq, Eq, Structural)]
pub enum StoredPasswordKind {
    Argon2,
    ScramSha1,
    ScramSha256,
}

/// Error of a store operation.
#[derive(Debug)]
pub enum StoreError {
    NotFound,
    Malformed,
}

/// The in-memory backend: one optional entry per kind.
pub struct FakeStoreBackend {
    pub stored_password_argon2: Option<String>,
    pub stored_password_scram_sha1: Option<String>,
    pub stored_password_scram_sha256: Option<String>,
}

/// The field an operation reads or writes, by kind.
pub open spec fn field_of(b: FakeStoreBackend, kind: StoredPasswordKind) -> Option<Seq<char>> {
    match kind {
        StoredPasswordKind::Argon2 => opt_string_view(b.stored_password_argon2),
        StoredPasswordKind::ScramSha1 => opt_string_view(b.stored_password_scram_sha1),
        StoredPasswordKind::ScramSha256 => opt_string_view(b.stored_password_scram_sha256),
    }
}

impl Default for FakeStoreBackend {
    /// An empty backend.
    fn default() -> (r: FakeStoreBackend)
        ensures
            r.stored_password_argon2 is None,
            r.stored_password_scram_sha1 is None,
            r.stored_password_scram_sha256 is None,
    {
        FakeStoreBackend {
            stored_password_argon2: None,
            stored_password_scram_sha1: None,
            stored_password_scram_sha256: None,
        }
    }
}

impl FakeStoreBackend {
    /// Stores all three entries of the (single) user.
    pub fn add_user(
        &mut self,
        _jid: &Jid,
        stored_password_argon2: String,
        stored_password_scram_sha1: String,
        stored_password_scram_sha256: String,
    ) -> (r: Result<(), StoreError>)
        ensures
            r is Ok,
            opt_string_view(final(self).stored_password_argon2) == Some(
                stored_password_argon2@,
            ),
            opt_string_view(final(self).stored_password_scram_sha1) == Some(
                stored_password_scram_sha1@,
            ),
            opt_string_view(final(self).stored_password_scram_sha256) == Some(
                stored_password_scram_sha256@,
            ),
    {
        self.stored_password_argon2 = Some(stored_password_argon2);
        self.stored_password_scram_sha1 = Some(stored_password_scram_sha1);
        self.stored_password_scram_sha256 = Some(stored_password_scram_sha256);
        Ok(())
    }

    /// Removes every entry.
    pub fn remove_user(&mut self, _jid: &Jid) -> (r: Result<(), StoreError>)
        ensures
            r is Ok,
            final(self).stored_password_argon2 is None,
            final(self).stored_password_scram_sha1 is None,
            final(self).stored_password_scram_sha256 is None,
    {
        self.stored_password_argon2 = None;
        self.stored_password_scram_sha1 = None;
        self.stored_password_scram_sha256 = None;
        Ok(())
    }

    /// Reads the entry of a kind; absent entries are not found.
    pub fn get_stored_password(&self, _jid: &Jid, kind: StoredPasswordKind) -> (r: Result<
        String,
        StoreError,
    >)
        ensures
            match r {
                Ok(s) => field_of(*self, kind) == Some(s@),
                Err(_) => field_of(*self, kind) is None,
            },
    {
        let field = match kind {
            StoredPasswordKind::Argon2 => &self.stored_password_argon2,
            StoredPasswordKind::ScramSha1 => &self.stored_password_scram_sha1,
            StoredPasswordKind::ScramSha256 => &self.stored_password_scram_sha256,
        };
        match field {
            Some(s) => Ok(s.clone()),
            None => Err(StoreError::NotFound),
        }
    }

    /// Writes the entry of a kind.
    pub fn set_stored_password(
        &mut self,
        _jid: &Jid,
        kind: StoredPasswordKind,
        stored_password: String,
    ) -> (r: Result<(), StoreError>)
        ensures
            r is Ok,
            field_of(*final(self), kind) == Some(stored_password@),
            forall|k: StoredPasswordKind|
                k != kind ==> field_of(*final(self), k) == field_of(*old(self), k),
    {
        match kind {
            StoredPasswordKind::Argon2 => {
                self.stored_password_argon2 = Some(stored_password);
            },
            StoredPasswordKind::ScramSha1 => {
                self.stored_password_scram_sha1 = Some(stored_password);
            },
            StoredPasswordKind::ScramSha256 => {
                self.stored_password_scram_sha256 = Some(stored_password);
            },
        }
        Ok(())
    }
}

/// An argon2 stored password: the PHC string, used at registration only.
pub struct StoredPasswordArgon2 {
    pub hash: String,
}

impl StoredPasswordArgon2 {
    /// Hashes a password with a fresh random salt; the result verifies
    /// against the password.
    pub fn new(plaintext: &str) -> (r: Result<StoredPasswordArgon2, crate::crypto::CryptoError>)
        ensures
            match r {
                Ok(e) => crate::crypto::argon2_verifies(
                    vstd::utf8::encode_utf8(plaintext@),
                    e.hash@,
                ),
                Err(_) => true,
            },
    {
        let bytes = plaintext.as_bytes_vec();
        match crate::crypto::argon2_register(&bytes) {
            Ok(phc) => Ok(StoredPasswordArgon2 { hash: phc }),
            Err(e) => Err(e),
        }
    }

    /// Reads back a stored PHC string, accepting exactly the
    /// syntactically valid ones.
    pub fn parse(s: &str) -> (r: Result<StoredPasswordArgon2, StoreError>)
        ensures
            (r is Ok) == crate::crypto::phc_valid(s@),
            match r {
                Ok(e) => e.hash@ == s@,
                Err(_) => true,
            },
    {
        if crate::crypto::phc_parse_ok(s) {
            Ok(StoredPasswordArgon2 { hash: s.to_owned() })
        } else {
            Err(StoreError::Malformed)
        }
    }

    /// The textual form: the PHC string itself.
    pub fn format(&self) -> (r: String)
        ensures
            r@ == self.hash@,
    {
        self.hash.clone()
    }

    /// Whether the password matches the hash.
    pub fn verify_password(&self, plaintext: &str) -> (r: bool)
        ensures
            r == crate::crypto::argon2_verifies(
                vstd::utf8::encode_utf8(plaintext@),
                self.hash@,
            ),
    {
        let bytes = plaintext.as_bytes_vec();
        crate::crypto::argon2_check(&bytes, self.hash.as_str())
    }
}

} // verus!
