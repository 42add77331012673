//! The server side of a SCRAM exchange, as a state machine on messages.
//!
//! The conversation follows RFC 5802: client-first, server-first,
//! client-final, server-final. The message grammar and the acceptance
//! condition are specified exactly; an unknown user is given a derived
//! dummy entry so that the exchange runs the same computations and fails
//! only at the end.

use vstd::prelude::*;

use crate::crypto::{b64_decode, b64_decode_of, b64_encode, b64_of, random_bytes_16};
use crate::jid::Jid;
use crate::scram::{eq_bytes, hash_len, hmac, hmac_of, proof_ok, HashAlg, StoredPasswordScram};
use crate::xml::parse::scan_to;
use crate::xml::str_eq;
use vstd::utf8::encode_utf8;

verus! {

/// The text split at every `,`.
pub open spec fn comma_fields(s: Seq<char>) -> Seq<Seq<char>>
    decreases s.len(),
{
    let k = scan_to(s, 0, seq![',']);
    if k < 0 || k >= s.len() {
        seq![s]
    } else {
        seq![s.take(k)] + comma_fields(s.subrange(k + 1, s.len() as int))
    }
}

/// The value of a `x=value` field for the given attribute letter.
pub open spec fn attr_val(field: Seq<char>, c: char) -> Option<Seq<char>> {
    if field.len() >= 2 && field[0] == c && field[1] == '=' {
        Some(field.skip(2))
    } else {
        None
    }
}

/// The parse of a client-first message: a `n`/`y` channel-binding flag,
/// an empty authorization identity, the user name and the client nonce.
pub open spec fn client_first_spec(s: Seq<char>) -> Option<(Seq<char>, Seq<char>, Seq<char>)> {
    let fs = comma_fields(s);
    if fs.len() >= 4 && (fs[0] == "n"@ || fs[0] == "y"@) && fs[1].len() == 0 && attr_val(
        fs[2],
        'n',
    ) is Some && attr_val(fs[3], 'r') is Some {
        Some(
            (
                fs[0],
                attr_val(fs[2], 'n').unwrap(),
                attr_val(fs[3], 'r').unwrap(),
            ),
        )
    } else {
        None
    }
}

/// The client-first message without its channel-binding header.
pub open spec fn client_first_bare_of(s: Seq<char>) -> Seq<char> {
    let fs = comma_fields(s);
    s.skip(fs[0].len() as int + 2)
}

/// The parse of a client-final message: the channel-binding token, the
/// nonce echo and the proof, which must stand last.
pub open spec fn client_final_spec(s: Seq<char>) -> Option<(Seq<char>, Seq<char>, Seq<char>)> {
    let fs = comma_fields(s);
    if fs.len() >= 3 && attr_val(fs[0], 'c') is Some && attr_val(fs[1], 'r') is Some && attr_val(
        fs.last(),
        'p',
    ) is Some {
        Some(
            (
                attr_val(fs[0], 'c').unwrap(),
                attr_val(fs[1], 'r').unwrap(),
                attr_val(fs.last(), 'p').unwrap(),
            ),
        )
    } else {
        None
    }
}

/// The client-final message without its proof field and the comma before
/// it.
pub open spec fn client_final_without_proof(s: Seq<char>) -> Seq<char> {
    let fs = comma_fields(s);
    s.take(s.len() - fs.last().len() - 1)
}

/// The server-first message for a combined nonce, salt and the fixed
/// iteration count.
pub open spec fn server_first_of(full_nonce: Seq<char>, salt: Seq<u8>) -> Seq<char> {
    "r="@ + full_nonce + ",s="@ + b64_of(salt) + ",i=4096"@
}

/// The text whose signature both sides compute: client-first-bare,
/// server-first, and client-final-without-proof.
pub open spec fn auth_message_of(
    bare: Seq<char>,
    server_first: Seq<char>,
    without_proof: Seq<char>,
) -> Seq<char> {
    bare + seq![','] + server_first + seq![','] + without_proof
}

/// The server-final message: the base64 server signature.
pub open spec fn server_final_of(alg: HashAlg, server_key: Seq<u8>, auth_msg: Seq<char>) -> Seq<
    char,
> {
    "v="@ + b64_of(hmac_of(alg, server_key, encode_utf8(auth_msg)))
}

/// The exact acceptance condition of the final step: the user exists,
/// the message parses, the channel-binding token echoes the header, the
/// nonce echoes the combined nonce, and the decoded digest-sized proof
/// verifies over the authentication message.
pub open spec fn final_accepts(
    entry: crate::scram::ScramEntryModel,
    user_known: bool,
    gs2: Seq<char>,
    full_nonce: Seq<char>,
    bare: Seq<char>,
    server_first: Seq<char>,
    payload: Seq<char>,
) -> bool {
    &&& user_known
    &&& client_final_spec(payload) matches Some((cb, nonce, proofb))
    &&& cb == b64_of(encode_utf8(gs2 + ",,"@))
    &&& nonce == full_nonce
    &&& b64_decode_of(proofb) matches Some(pb)
    &&& pb.len() == hash_len(entry.alg)
    &&& proof_ok(
        entry,
        encode_utf8(auth_message_of(bare, server_first, client_final_without_proof(payload))),
        pb,
    )
}

/// Whether the server, in its current state, accepts the given
/// client-final message.
pub open spec fn server_accepts(s: ScramServer, payload: Seq<char>) -> bool {
    s.phase matches ScramPhase::AwaitFinal {
        authid,
        full_nonce,
        server_first,
        bare,
        gs2,
        entry,
        user_known,
    } && final_accepts(entry@, user_known, gs2@, full_nonce@, bare@, server_first@, payload)
}

/// The state of the exchange.
pub enum ScramPhase {
    /// Awaiting the client-first message.
    AwaitFirst,
    /// Client-first parsed; the caller must look the user up.
    AwaitLookup { authid: String, cnonce: String, bare: String, gs2: String },
    /// Server-first sent; awaiting the client-final message.
    AwaitFinal {
        authid: String,
        full_nonce: String,
        server_first: String,
        bare: String,
        gs2: String,
        entry: StoredPasswordScram,
        user_known: bool,
    },
    /// The exchange ended.
    Finished,
}

/// The server side of one SCRAM exchange.
pub struct ScramServer {
    pub alg: HashAlg,
    pub domain: String,
    pub phase: ScramPhase,
}

/// Outcome of the final step.
pub enum ScramFinal {
    /// The proof verified: the authenticated JID and the server-final
    /// message.
    Accepted { jid: Jid, server_final: String },
    /// The proof, token or nonce did not verify, or the user is unknown.
    Rejected,
}

impl ScramServer {
    /// A fresh exchange for one mechanism and resolved domain.
    pub fn new(alg: HashAlg, domain: String) -> (r: ScramServer)
        ensures
            r.alg == alg,
            r.domain@ == domain@,
            r.phase is AwaitFirst,
    {
        ScramServer { alg, domain, phase: ScramPhase::AwaitFirst }
    }

    /// Consumes the client-first message; yields the user name to look
    /// up. Any malformed message, a wrong phase, or a nonempty
    /// authorization identity is rejected and ends the exchange.
    pub fn client_first(&mut self, payload: &str) -> (r: Result<String, ()>)
        ensures
            final(self).alg == old(self).alg,
            final(self).domain@ == old(self).domain@,
            match r {
                Ok(authid) => {
                    &&& old(self).phase is AwaitFirst
                    &&& client_first_spec(payload@) matches Some((gs2, a, cn))
                    &&& authid@ == a
                    &&& final(self).phase matches ScramPhase::AwaitLookup {
                        authid: a2,
                        cnonce,
                        bare,
                        gs2: g2,
                    }
                    &&& a2@ == a
                    &&& cnonce@ == cn
                    &&& bare@ == client_first_bare_of(payload@)
                    &&& g2@ == gs2
                },
                Err(_) => (!(old(self).phase is AwaitFirst) || client_first_spec(payload@)
                    is None) && final(self).phase is Finished,
            },
    {
        match &self.phase {
            ScramPhase::AwaitFirst => {},
            _ => {
                self.phase = ScramPhase::Finished;
                return Err(());
            },
        }
        let fields = e_comma_fields(payload);
        if fields.len() < 4 {
            self.phase = ScramPhase::Finished;
            return Err(());
        }
        let gs2_ok = str_eq(fields[0].as_str(), "n") || str_eq(fields[0].as_str(), "y");
        if !gs2_ok {
            self.phase = ScramPhase::Finished;
            return Err(());
        }
        if !fields[1].as_str().is_empty() {
            self.phase = ScramPhase::Finished;
            return Err(());
        }
        let authid = match e_attr_val(fields[2].as_str(), 'n') {
            Some(a) => a,
            None => {
                self.phase = ScramPhase::Finished;
                return Err(());
            },
        };
        let cnonce = match e_attr_val(fields[3].as_str(), 'r') {
            Some(c) => c,
            None => {
                self.phase = ScramPhase::Finished;
                return Err(());
            },
        };
        let gs2 = fields[0].clone();
        let n = payload.unicode_len();
        proof {
            lemma_comma_fields_first_short(payload@);
            assert(fields@[0]@ == comma_fields(payload@)[0]);
        }
        let skip_n = fields[0].as_str().unicode_len() + 2;
        let bare = payload.substring_char(skip_n, n).to_owned();
        let out = authid.clone();
        self.phase = ScramPhase::AwaitLookup { authid, cnonce, bare, gs2 };
        Ok(out)
    }

    /// Consumes the lookup result and emits the server-first message as
    /// the challenge. An unknown user is given a freshly derived dummy
    /// entry: the exchange proceeds identically and fails at the end.
    pub fn server_first(&mut self, entry: Option<StoredPasswordScram>) -> (r: Result<String, ()>)
        ensures
            final(self).alg == old(self).alg,
            final(self).domain@ == old(self).domain@,
            (r is Ok) == (old(self).phase is AwaitLookup && (match entry {
                Some(e) => e@.alg == old(self).alg && crate::scram::entry_wf(e@),
                None => true,
            })),
            match r {
                Ok(challenge) => {
                    &&& old(self).phase matches ScramPhase::AwaitLookup {
                        authid,
                        cnonce,
                        bare,
                        gs2,
                    }
                    &&& final(self).phase matches ScramPhase::AwaitFinal {
                        authid: a2,
                        full_nonce,
                        server_first,
                        bare: b2,
                        gs2: g2,
                        entry: e2,
                        user_known,
                    }
                    &&& a2@ == authid@
                    &&& b2@ == bare@
                    &&& g2@ == gs2@
                    &&& server_first@ == challenge@
                    &&& challenge@ == server_first_of(full_nonce@, e2@.salt)
                    &&& match entry {
                        Some(e) => user_known && e2@ == e@,
                        None => !user_known,
                    }
                    &&& exists|sn: Seq<char>| full_nonce@ == cnonce@ + sn
                    &&& crate::scram::entry_wf(e2@)
                },
                Err(_) => final(self).phase is Finished,
            },
    {
        let (authid, cnonce, bare, gs2) = match &self.phase {
            ScramPhase::AwaitLookup { authid, cnonce, bare, gs2 } => (
                authid.clone(),
                cnonce.clone(),
                bare.clone(),
                gs2.clone(),
            ),
            _ => {
                self.phase = ScramPhase::Finished;
                return Err(());
            },
        };
        let (entry, user_known) = match entry {
            Some(e) => {
                if e.iterations() != 4096 || e.stored_key_bytes().len() != expected_hash_len(
                    self.alg,
                ) || e.server_key_bytes().len() != expected_hash_len(self.alg) || e.algorithm()
                    != self.alg {
                    self.phase = ScramPhase::Finished;
                    return Err(());
                }
                (e, true)
            },
            None => {
                let dummy_salt = random_bytes_16();
                let mut pw: Vec<u8> = Vec::new();
                pw.push(0u8);
                (StoredPasswordScram::derive_with_salt(self.alg, &pw, &dummy_salt), false)
            },
        };
        let snonce_raw = random_bytes_16();
        let snonce = b64_encode(&snonce_raw);
        let mut full_nonce = cnonce.clone();
        full_nonce.append(snonce.as_str());
        let mut challenge = String::new();
        challenge.append("r=");
        challenge.append(full_nonce.as_str());
        challenge.append(",s=");
        let salt_b64 = b64_encode(entry.salt_bytes());
        challenge.append(salt_b64.as_str());
        challenge.append(",i=4096");
        proof {
            assert(challenge@ =~= server_first_of(full_nonce@, entry@.salt));
        }
        let server_first = challenge.clone();
        let out = challenge;
        self.phase = ScramPhase::AwaitFinal {
            authid,
            full_nonce,
            server_first,
            bare,
            gs2,
            entry,
            user_known,
        };
        Ok(out)
    }

    /// Consumes the client-final message. Accepted exactly when the user
    /// exists, the channel-binding token echoes the header, the nonce
    /// echoes the combined nonce, and the proof verifies against the
    /// stored key over the authentication message.
    pub fn client_final(&mut self, payload: &str) -> (r: ScramFinal)
        ensures
            final(self).phase is Finished,
            (r is Accepted) == server_accepts(*old(self), payload@),
            match r {
                ScramFinal::Accepted { jid, server_final } => {
                    &&& old(self).phase matches ScramPhase::AwaitFinal {
                        authid,
                        full_nonce,
                        server_first,
                        bare,
                        gs2,
                        entry,
                        user_known,
                    }
                    &&& user_known
                    &&& client_final_spec(payload@) matches Some((cb, nonce, proofb))
                    &&& cb == b64_of(encode_utf8(gs2@ + ",,"@))
                    &&& nonce == full_nonce@
                    &&& exists|proof_bytes: Seq<u8>|
                        b64_decode_of(proofb) == Some(proof_bytes) && proof_ok(
                            entry@,
                            encode_utf8(
                                auth_message_of(
                                    bare@,
                                    server_first@,
                                    client_final_without_proof(payload@),
                                ),
                            ),
                            proof_bytes,
                        )
                    &&& jid@.local == Some(authid@)
                    &&& jid@.domain == old(self).domain@
                    &&& jid@.resource is None
                    &&& server_final@ == server_final_of(
                        entry@.alg,
                        entry@.server_key,
                        auth_message_of(bare@, server_first@, client_final_without_proof(payload@)),
                    )
                },
                ScramFinal::Rejected => true,
            },
    {
        let (authid, full_nonce, server_first, bare, gs2, entry, user_known) = match &self.phase {
            ScramPhase::AwaitFinal {
                authid,
                full_nonce,
                server_first,
                bare,
                gs2,
                entry,
                user_known,
            } => (
                authid.clone(),
                full_nonce.clone(),
                server_first.clone(),
                bare.clone(),
                gs2.clone(),
                entry.duplicate(),
                *user_known,
            ),
            _ => {
                self.phase = ScramPhase::Finished;
                return ScramFinal::Rejected;
            },
        };
        self.phase = ScramPhase::Finished;
        let fields = e_comma_fields(payload);
        if fields.len() < 3 {
            return ScramFinal::Rejected;
        }
        let cb = match e_attr_val(fields[0].as_str(), 'c') {
            Some(v) => v,
            None => {
                return ScramFinal::Rejected;
            },
        };
        let nonce = match e_attr_val(fields[1].as_str(), 'r') {
            Some(v) => v,
            None => {
                return ScramFinal::Rejected;
            },
        };
        let proofb = match e_attr_val(fields[fields.len() - 1].as_str(), 'p') {
            Some(v) => v,
            None => {
                return ScramFinal::Rejected;
            },
        };
        // The expected channel-binding token: base64 of the gs2 header.
        let mut gs2_full = gs2.clone();
        gs2_full.append(",,");
        proof {
            reveal_strlit(",,");
            assert(gs2_full@ =~= gs2@ + ",,"@);
        }
        let gs2_bytes = gs2_full.as_str().as_bytes_vec();
        let expected_cb = b64_encode(&gs2_bytes);
        if !str_eq(cb.as_str(), expected_cb.as_str()) {
            return ScramFinal::Rejected;
        }
        if !str_eq(nonce.as_str(), full_nonce.as_str()) {
            return ScramFinal::Rejected;
        }
        let proof_bytes = match b64_decode(proofb.as_str()) {
            Ok(v) => v,
            Err(_) => {
                return ScramFinal::Rejected;
            },
        };
        let ealg = entry.algorithm();
        if proof_bytes.len() != expected_hash_len(ealg) {
            return ScramFinal::Rejected;
        }
        // The authentication message both sides sign.
        let last_len = fields[fields.len() - 1].as_str().unicode_len();
        proof {
            lemma_comma_fields_last_short(payload@);
        }
        let wp = payload.substring_char(0, payload.unicode_len() - last_len - 1).to_owned();
        let mut auth_msg = bare.clone();
        auth_msg.append(",");
        auth_msg.append(server_first.as_str());
        auth_msg.append(",");
        auth_msg.append(wp.as_str());
        proof {
            reveal_strlit(",");
            assert(","@ =~= seq![',']);
            assert(auth_msg@ =~= auth_message_of(
                bare@,
                server_first@,
                client_final_without_proof(payload@),
            ));
        }
        let auth_bytes = auth_msg.as_str().as_bytes_vec();
        let client_signature = hmac(ealg, entry.stored_key_bytes(), &auth_bytes);
        let recovered_key = crate::scram::xor_vec(&proof_bytes, &client_signature);
        let recovered_hash = crate::scram::hash(ealg, &recovered_key);
        let accepted = eq_bytes(&recovered_hash, entry.stored_key_bytes());
        if !(accepted && user_known) {
            return ScramFinal::Rejected;
        }
        proof {
            assert(b64_decode_of(proofb@) == Some(proof_bytes@));
            assert(proof_ok(entry@, auth_bytes@, proof_bytes@));
        }
        let server_signature = hmac(ealg, entry.server_key_bytes(), &auth_bytes);
        let mut server_final = String::new();
        server_final.append("v=");
        let sig_b64 = b64_encode(&server_signature);
        server_final.append(sig_b64.as_str());
        proof {
            reveal_strlit("v=");
            assert(server_final@ =~= server_final_of(
                entry@.alg,
                entry@.server_key,
                auth_message_of(bare@, server_first@, client_final_without_proof(payload@)),
            ));
        }
        let jid = Jid::new(Some(authid), self.domain.clone(), None);
        ScramFinal::Accepted { jid, server_final }
    }
}

fn expected_hash_len(alg: HashAlg) -> (r: usize)
    ensures
        r == hash_len(alg),
{
    match alg {
        HashAlg::Sha1 => 20,
        HashAlg::Sha256 => 32,
    }
}

/// With at least three fields, the first field and its separator fit
/// strictly inside the text.
proof fn lemma_comma_fields_first_short(s: Seq<char>)
    requires
        comma_fields(s).len() >= 3,
    ensures
        comma_fields(s)[0].len() + 2 <= s.len(),
        comma_fields(s)[0] == s.take(scan_to(s, 0, seq![','])),
        comma_fields(s)[0].len() == scan_to(s, 0, seq![',']),
        s.skip(comma_fields(s)[0].len() as int + 2) =~= s.subrange(
            scan_to(s, 0, seq![',']) + 2,
            s.len() as int,
        ),
{
    let k = scan_to(s, 0, seq![',']);
    crate::xml::parse::lemma_scan_to_bounds(s, 0, seq![',']);
    assert(0 <= k < s.len());
    let rest = s.subrange(k + 1, s.len() as int);
    assert(comma_fields(rest).len() >= 2);
    if rest.len() == 0 {
        let k2 = scan_to(rest, 0, seq![',']);
        assert(comma_fields(rest) =~= seq![rest]);
    }
    assert(rest.len() >= 1);
}

/// The last comma field is shorter than the text it was split from.
proof fn lemma_comma_fields_last_short(s: Seq<char>)
    requires
        comma_fields(s).len() >= 2,
    ensures
        comma_fields(s).last().len() + 1 <= s.len(),
        comma_fields(s).last() == s.skip(s.len() - comma_fields(s).last().len()),
    decreases s.len(),
{
    let k = scan_to(s, 0, seq![',']);
    crate::xml::parse::lemma_scan_to_bounds(s, 0, seq![',']);
    if 0 <= k < s.len() {
        let rest = s.subrange(k + 1, s.len() as int);
        if comma_fields(rest).len() >= 2 {
            lemma_comma_fields_last_short(rest);
            assert(comma_fields(s).last() == comma_fields(rest).last());
            assert(rest.skip(rest.len() - comma_fields(rest).last().len()) =~= s.skip(
                s.len() - comma_fields(s).last().len(),
            ));
        } else {
            assert(comma_fields(rest) =~= seq![rest]) by {
                let k2 = scan_to(rest, 0, seq![',']);
                crate::xml::parse::lemma_scan_to_bounds(rest, 0, seq![',']);
                if 0 <= k2 < rest.len() {
                    assert(comma_fields(rest).len() >= 2) by {
                        assert(comma_fields(rest) == seq![rest.take(k2)] + comma_fields(
                            rest.subrange(k2 + 1, rest.len() as int),
                        ));
                        assert(comma_fields(
                            rest.subrange(k2 + 1, rest.len() as int),
                        ).len() >= 1) by {
                            lemma_comma_fields_nonempty(rest.subrange(k2 + 1, rest.len() as int));
                        }
                    }
                }
            }
            assert(comma_fields(s).last() == rest);
            assert(rest =~= s.skip(s.len() - rest.len()));
        }
    }
}

/// Splitting yields at least one field.
proof fn lemma_comma_fields_nonempty(s: Seq<char>)
    ensures
        comma_fields(s).len() >= 1,
    decreases s.len(),
{
    let k = scan_to(s, 0, seq![',']);
    crate::xml::parse::lemma_scan_to_bounds(s, 0, seq![',']);
    if 0 <= k < s.len() {
        lemma_comma_fields_nonempty(s.subrange(k + 1, s.len() as int));
    }
}

/// The text split at every `,`, executable.
pub(crate) fn e_comma_fields(s: &str) -> (r: Vec<String>)
    ensures
        r@.len() == comma_fields(s@).len(),
        forall|k: int| 0 <= k < r@.len() ==> r@[k]@ == #[trigger] comma_fields(s@)[k],
    decreases s@.len(),
{
    proof {
        reveal_strlit(",");
        assert(","@ =~= seq![',']);
    }
    let k = crate::xml::parser::e_scan_to(s, ",", 0);
    let n = s.unicode_len();
    if k == n {
        let mut r: Vec<String> = Vec::new();
        r.push(s.to_owned());
        proof {
            assert(comma_fields(s@) =~= seq![s@]);
        }
        r
    } else {
        let field = s.substring_char(0, k).to_owned();
        let rest = s.substring_char(k + 1, n);
        let mut r: Vec<String> = Vec::new();
        r.push(field);
        let tail = e_comma_fields(rest);
        let tn = tail.len();
        let ghost spec_tail = comma_fields(rest@);
        for i in 0..tn
            invariant
                tn == tail.len(),
                spec_tail == comma_fields(rest@),
                tn == spec_tail.len(),
                forall|w: int| 0 <= w < tn ==> tail@[w]@ == #[trigger] spec_tail[w],
                r@.len() == i + 1,
                r@[0]@ == s@.take(k as int),
                forall|w: int| 1 <= w < i + 1 ==> r@[w]@ == #[trigger] spec_tail[w - 1],
        {
            r.push(tail[i].clone());
        }
        proof {
            assert(comma_fields(s@) == seq![s@.take(k as int)] + spec_tail);
        }
        r
    }
}

/// The value of a `x=value` field, executable.
pub(crate) fn e_attr_val(field: &str, c: char) -> (r: Option<String>)
    ensures
        crate::xml::opt_string_view(r) == attr_val(field@, c),
{
    let n = field.unicode_len();
    if n < 2 {
        return None;
    }
    if field.get_char(0) != c || field.get_char(1) != '=' {
        return None;
    }
    Some(field.substring_char(2, n).to_owned())
}

} // verus!
