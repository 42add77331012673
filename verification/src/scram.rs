//! SCRAM key derivation and the stored-password format.
//!
//! The derivation follows RFC 5802: a PBKDF2-salted password, HMAC-derived
//! client and server keys, and a hashed stored key. HMAC and PBKDF2 are
//! implemented here and verified against their defining equations over the
//! digest functions; only the digests themselves are trusted.

use vstd::prelude::*;

use crate::crypto::{
    b64_decode, b64_decode_of, b64_encode, b64_of, random_bytes_16, sha1_digest, sha1_of,
    sha256_digest, sha256_of,
};
use crate::xml::parse::{scan_to, starts_with_at};
use crate::xml::str_eq;

verus! {

/// The hash family of a SCRAM mechanism.
#[derive(Clone, Copy, PartialEq, Eq, Structural)]
pub enum HashAlg {
    Sha1,
    Sha256,
}

/// The digest of the family.
pub open spec fn hash_of(alg: HashAlg, data: Seq<u8>) -> Seq<u8> {
    match alg {
        HashAlg::Sha1 => sha1_of(data),
        HashAlg::Sha256 => sha256_of(data),
    }
}

/// The digest length of the family.
pub open spec fn hash_len(alg: HashAlg) -> int {
    match alg {
        HashAlg::Sha1 => 20,
        HashAlg::Sha256 => 32,
    }
}

/// The digest, executable.
pub fn hash(alg: HashAlg, data: &Vec<u8>) -> (r: Vec<u8>)
    ensures
        r@ == hash_of(alg, data@),
        r@.len() == hash_len(alg),
{
    match alg {
        HashAlg::Sha1 => sha1_digest(data),
        HashAlg::Sha256 => sha256_digest(data),
    }
}

/// Bytewise exclusive or of two equally long sequences.
pub open spec fn xor_bytes(a: Seq<u8>, b: Seq<u8>) -> Seq<u8> {
    Seq::new(a.len(), |i: int| a[i] ^ b[i])
}

/// Bytewise exclusive or, executable.
pub fn xor_vec(a: &Vec<u8>, b: &Vec<u8>) -> (r: Vec<u8>)
    requires
        a@.len() == b@.len(),
    ensures
        r@ == xor_bytes(a@, b@),
{
    let mut r: Vec<u8> = Vec::new();
    let n = a.len();
    for i in 0..n
        invariant
            n == a.len(),
            a@.len() == b@.len(),
            r@ == xor_bytes(a@, b@).take(i as int),
    {
        r.push(a[i] ^ b[i]);
        proof {
            assert(r@ =~= xor_bytes(a@, b@).take(i + 1));
        }
    }
    proof {
        assert(xor_bytes(a@, b@).take(n as int) =~= xor_bytes(a@, b@));
    }
    r
}

/// The xor of two bytes is an involution: applying one operand twice
/// gives the other back.
pub proof fn lemma_xor_involution(a: Seq<u8>, b: Seq<u8>)
    ensures
        xor_bytes(xor_bytes(a, b), b) == a,
{
    assert forall|i: int| 0 <= i < a.len() implies #[trigger] xor_bytes(xor_bytes(a, b), b)[i]
        == a[i] by {
        let x = a[i];
        let y = b[i];
        assert(xor_bytes(a, b)[i] == (x ^ y));
        assert((x ^ y) ^ y == x) by (bit_vector);
    }
    assert(xor_bytes(xor_bytes(a, b), b) =~= a);
}

/// The HMAC block size of both families, in bytes.
pub open spec fn block_len() -> int {
    64
}

/// A key hashed down when longer than a block, as HMAC prescribes.
pub open spec fn norm_key(alg: HashAlg, key: Seq<u8>) -> Seq<u8> {
    if key.len() > block_len() {
        hash_of(alg, key)
    } else {
        key
    }
}

/// A key padded to the block size with zeros.
pub open spec fn padded_key(k: Seq<u8>) -> Seq<u8> {
    k + Seq::new((block_len() - k.len()) as nat, |i: int| 0u8)
}

/// The block of repeated inner padding bytes.
pub open spec fn ipad_block() -> Seq<u8> {
    Seq::new(block_len() as nat, |i: int| 0x36u8)
}

/// The block of repeated outer padding bytes.
pub open spec fn opad_block() -> Seq<u8> {
    Seq::new(block_len() as nat, |i: int| 0x5cu8)
}

/// HMAC per RFC 2104 over the family's digest.
pub open spec fn hmac_of(alg: HashAlg, key: Seq<u8>, msg: Seq<u8>) -> Seq<u8> {
    let k = padded_key(norm_key(alg, key));
    hash_of(alg, xor_bytes(k, opad_block()) + hash_of(alg, xor_bytes(k, ipad_block()) + msg))
}

/// HMAC, executable and verified against [`hmac_of`].
pub fn hmac(alg: HashAlg, key: &Vec<u8>, msg: &Vec<u8>) -> (r: Vec<u8>)
    ensures
        r@ == hmac_of(alg, key@, msg@),
        r@.len() == hash_len(alg),
{
    let k0 = if key.len() > 64 {
        hash(alg, key)
    } else {
        key.clone()
    };
    proof {
        assert(k0@ == norm_key(alg, key@));
    }
    let mut k = k0;
    let ghost knorm = k@;
    while k.len() < 64
        invariant
            knorm == norm_key(alg, key@),
            knorm.len() <= k@.len() <= 64,
            k@ == padded_key(knorm).take(k@.len() as int),
        decreases 64 - k.len(),
    {
        k.push(0u8);
        proof {
            assert(k@ =~= padded_key(knorm).take(k@.len() as int));
        }
    }
    proof {
        assert(k@ =~= padded_key(knorm));
    }
    let mut ipadded: Vec<u8> = Vec::new();
    let mut opadded: Vec<u8> = Vec::new();
    for i in 0..64usize
        invariant
            k@ == padded_key(knorm),
            ipadded@ == xor_bytes(k@, ipad_block()).take(i as int),
            opadded@ == xor_bytes(k@, opad_block()).take(i as int),
    {
        ipadded.push(k[i] ^ 0x36u8);
        opadded.push(k[i] ^ 0x5cu8);
        proof {
            assert(ipadded@ =~= xor_bytes(k@, ipad_block()).take(i + 1));
            assert(opadded@ =~= xor_bytes(k@, opad_block()).take(i + 1));
        }
    }
    proof {
        assert(ipadded@ =~= xor_bytes(k@, ipad_block()));
        assert(opadded@ =~= xor_bytes(k@, opad_block()));
    }
    let mut inner_input = ipadded;
    let n = msg.len();
    let ghost inner_base = inner_input@;
    for i in 0..n
        invariant
            n == msg.len(),
            inner_input@ == inner_base + msg@.take(i as int),
    {
        inner_input.push(msg[i]);
        proof {
            assert(inner_input@ =~= inner_base + msg@.take(i + 1));
        }
    }
    proof {
        assert(msg@.take(n as int) =~= msg@);
    }
    let inner = hash(alg, &inner_input);
    let mut outer_input = opadded;
    let m = inner.len();
    let ghost outer_base = outer_input@;
    for i in 0..m
        invariant
            m == inner.len(),
            outer_input@ == outer_base + inner@.take(i as int),
    {
        outer_input.push(inner[i]);
        proof {
            assert(outer_input@ =~= outer_base + inner@.take(i + 1));
        }
    }
    proof {
        assert(inner@.take(m as int) =~= inner@);
    }
    hash(alg, &outer_input)
}

/// The PBKDF2 block index suffix for the first (and only) output block.
pub open spec fn one_be() -> Seq<u8> {
    seq![0u8, 0u8, 0u8, 1u8]
}

/// The `U_j` iterate of PBKDF2-HMAC.
pub open spec fn prf_u(alg: HashAlg, pw: Seq<u8>, salt: Seq<u8>, j: nat) -> Seq<u8>
    decreases j,
{
    if j <= 1 {
        hmac_of(alg, pw, salt + one_be())
    } else {
        hmac_of(alg, pw, prf_u(alg, pw, salt, (j - 1) as nat))
    }
}

/// The xor of the first `j` iterates.
pub open spec fn prf_acc(alg: HashAlg, pw: Seq<u8>, salt: Seq<u8>, j: nat) -> Seq<u8>
    decreases j,
{
    if j <= 1 {
        prf_u(alg, pw, salt, 1)
    } else {
        xor_bytes(prf_acc(alg, pw, salt, (j - 1) as nat), prf_u(alg, pw, salt, j))
    }
}

/// PBKDF2-HMAC with one output block: the salted password of SCRAM.
pub open spec fn pbkdf2_of(alg: HashAlg, pw: Seq<u8>, salt: Seq<u8>, iters: nat) -> Seq<u8> {
    prf_acc(alg, pw, salt, iters)
}

/// PBKDF2, executable and verified against [`pbkdf2_of`].
pub fn pbkdf2(alg: HashAlg, pw: &Vec<u8>, salt: &Vec<u8>, iters: u32) -> (r: Vec<u8>)
    requires
        iters >= 1,
    ensures
        r@ == pbkdf2_of(alg, pw@, salt@, iters as nat),
        r@.len() == hash_len(alg),
{
    let mut block_input = salt.clone();
    block_input.push(0u8);
    block_input.push(0u8);
    block_input.push(0u8);
    block_input.push(1u8);
    proof {
        assert(block_input@ =~= salt@ + one_be());
    }
    let mut u = hmac(alg, pw, &block_input);
    let mut acc = u.clone();
    let mut j: u32 = 1;
    proof {
        assert(u@ == prf_u(alg, pw@, salt@, 1));
        assert(acc@ == prf_acc(alg, pw@, salt@, 1));
    }
    while j < iters
        invariant
            1 <= j <= iters,
            u@ == prf_u(alg, pw@, salt@, j as nat),
            acc@ == prf_acc(alg, pw@, salt@, j as nat),
            u@.len() == hash_len(alg),
            acc@.len() == hash_len(alg),
        decreases iters - j,
    {
        let next = hmac(alg, pw, &u);
        proof {
            assert(next@ == prf_u(alg, pw@, salt@, (j + 1) as nat));
        }
        acc = xor_vec(&acc, &next);
        u = next;
        j = j + 1;
    }
    acc
}

/// The ASCII bytes of `"Client Key"`.
pub open spec fn client_key_label() -> Seq<u8> {
    seq![67u8, 108u8, 105u8, 101u8, 110u8, 116u8, 32u8, 75u8, 101u8, 121u8]
}

/// The ASCII bytes of `"Server Key"`.
pub open spec fn server_key_label() -> Seq<u8> {
    seq![83u8, 101u8, 114u8, 118u8, 101u8, 114u8, 32u8, 75u8, 101u8, 121u8]
}

fn client_key_label_vec() -> (r: Vec<u8>)
    ensures
        r@ == client_key_label(),
{
    let mut v: Vec<u8> = Vec::new();
    v.push(67u8);
    v.push(108u8);
    v.push(105u8);
    v.push(101u8);
    v.push(110u8);
    v.push(116u8);
    v.push(32u8);
    v.push(75u8);
    v.push(101u8);
    v.push(121u8);
    proof {
        assert(v@ =~= client_key_label());
    }
    v
}

fn server_key_label_vec() -> (r: Vec<u8>)
    ensures
        r@ == server_key_label(),
{
    let mut v: Vec<u8> = Vec::new();
    v.push(83u8);
    v.push(101u8);
    v.push(114u8);
    v.push(118u8);
    v.push(101u8);
    v.push(114u8);
    v.push(32u8);
    v.push(75u8);
    v.push(101u8);
    v.push(121u8);
    proof {
        assert(v@ =~= server_key_label());
    }
    v
}

/// The iteration count every stored entry carries.
pub open spec fn scram_iterations() -> int {
    4096
}

/// The salted password of SCRAM.
pub open spec fn salted_password_of(alg: HashAlg, pw: Seq<u8>, salt: Seq<u8>) -> Seq<u8> {
    pbkdf2_of(alg, pw, salt, scram_iterations() as nat)
}

/// The client key: `HMAC(salted, "Client Key")`.
pub open spec fn client_key_of(alg: HashAlg, pw: Seq<u8>, salt: Seq<u8>) -> Seq<u8> {
    hmac_of(alg, salted_password_of(alg, pw, salt), client_key_label())
}

/// The stored key: `H(client_key)`.
pub open spec fn stored_key_of(alg: HashAlg, pw: Seq<u8>, salt: Seq<u8>) -> Seq<u8> {
    hash_of(alg, client_key_of(alg, pw, salt))
}

/// The server key: `HMAC(salted, "Server Key")`.
pub open spec fn server_key_of(alg: HashAlg, pw: Seq<u8>, salt: Seq<u8>) -> Seq<u8> {
    hmac_of(alg, salted_password_of(alg, pw, salt), server_key_label())
}

/// Mathematical model of a stored SCRAM entry.
#[verifier::ext_equal]
pub struct ScramEntryModel {
    pub alg: HashAlg,
    pub iterations: int,
    pub salt: Seq<u8>,
    pub stored_key: Seq<u8>,
    pub server_key: Seq<u8>,
}

/// The entry registration derives from a password and salt.
pub open spec fn entry_of(alg: HashAlg, pw: Seq<u8>, salt: Seq<u8>) -> ScramEntryModel {
    ScramEntryModel {
        alg,
        iterations: scram_iterations(),
        salt,
        stored_key: stored_key_of(alg, pw, salt),
        server_key: server_key_of(alg, pw, salt),
    }
}

/// Whether an entry accepts a password: the keys derived from the
/// password and the entry's salt equal the stored ones.
pub open spec fn entry_verifies(e: ScramEntryModel, pw: Seq<u8>) -> bool {
    e.stored_key == stored_key_of(e.alg, pw, e.salt) && e.server_key == server_key_of(
        e.alg,
        pw,
        e.salt,
    )
}

/// Registration then verification accepts the same password, under either
/// hash family.
pub proof fn lemma_register_verifies(alg: HashAlg, pw: Seq<u8>, salt: Seq<u8>)
    ensures
        entry_verifies(entry_of(alg, pw, salt), pw),
{
}

/// A stored SCRAM entry: iteration count, salt and the two derived keys.
pub struct StoredPasswordScram {
    pub(crate) alg: HashAlg,
    pub(crate) iterations: u32,
    pub(crate) salt: Vec<u8>,
    pub(crate) stored_key: Vec<u8>,
    pub(crate) server_key: Vec<u8>,
}

impl View for StoredPasswordScram {
    type V = ScramEntryModel;

    closed spec fn view(&self) -> ScramEntryModel {
        ScramEntryModel {
            alg: self.alg,
            iterations: self.iterations as int,
            salt: self.salt@,
            stored_key: self.stored_key@,
            server_key: self.server_key@,
        }
    }
}

/// Error of parsing a stored entry.
#[derive(Debug)]
pub enum StoredPasswordError {
    Malformed,
}

/// Validity of an entry: the fixed iteration count and digest-sized keys.
pub open spec fn entry_wf(e: ScramEntryModel) -> bool {
    e.iterations == scram_iterations() && e.stored_key.len() == hash_len(e.alg)
        && e.server_key.len() == hash_len(e.alg)
}

impl StoredPasswordScram {
    /// Derives the entry for a password and an explicit salt.
    pub fn derive_with_salt(alg: HashAlg, plaintext: &Vec<u8>, salt: &Vec<u8>) -> (r:
        StoredPasswordScram)
        ensures
            r@ == entry_of(alg, plaintext@, salt@),
            entry_wf(r@),
    {
        let salted = pbkdf2(alg, plaintext, salt, 4096);
        let ck_label = client_key_label_vec();
        let sk_label = server_key_label_vec();
        let client_key = hmac(alg, &salted, &ck_label);
        let stored_key = hash(alg, &client_key);
        let server_key = hmac(alg, &salted, &sk_label);
        StoredPasswordScram { alg, iterations: 4096, salt: salt.clone(), stored_key, server_key }
    }

    /// Derives the entry for a password with a fresh 16-byte random salt.
    pub fn new(alg: HashAlg, plaintext: &Vec<u8>) -> (r: StoredPasswordScram)
        ensures
            r@ == entry_of(alg, plaintext@, r@.salt),
            r@.salt.len() == 16,
            entry_wf(r@),
    {
        let salt = random_bytes_16();
        Self::derive_with_salt(alg, plaintext, &salt)
    }

    /// Whether the entry accepts the password: the derivation is re-run
    /// and compared.
    pub fn verify_password(&self, plaintext: &Vec<u8>) -> (r: bool)
        ensures
            r == entry_verifies(self@, plaintext@),
    {
        let derived = Self::derive_with_salt(self.alg, plaintext, &self.salt);
        let stored_eq = eq_bytes(&derived.stored_key, &self.stored_key);
        let server_eq = eq_bytes(&derived.server_key, &self.server_key);
        stored_eq && server_eq
    }

    /// The hash family of the entry.
    pub fn algorithm(&self) -> (r: HashAlg)
        ensures
            r == self@.alg,
    {
        self.alg
    }

    /// The salt of the entry.
    pub fn salt_bytes(&self) -> (r: &Vec<u8>)
        ensures
            r@ == self@.salt,
    {
        &self.salt
    }

    /// The stored key of the entry.
    pub fn stored_key_bytes(&self) -> (r: &Vec<u8>)
        ensures
            r@ == self@.stored_key,
    {
        &self.stored_key
    }

    /// The server key of the entry.
    pub fn server_key_bytes(&self) -> (r: &Vec<u8>)
        ensures
            r@ == self@.server_key,
    {
        &self.server_key
    }
}

/// Byte sequence equality, executable.
pub fn eq_bytes(a: &Vec<u8>, b: &Vec<u8>) -> (r: bool)
    ensures
        r == (a@ == b@),
{
    if a.len() != b.len() {
        proof {
            assert(a@.len() != b@.len());
        }
        return false;
    }
    let n = a.len();
    for i in 0..n
        invariant
            n == a.len() == b.len(),
            forall|k: int| 0 <= k < i ==> a@[k] == b@[k],
    {
        if a[i] != b[i] {
            return false;
        }
    }
    proof {
        assert(a@ =~= b@);
    }
    true
}

/// The mechanism name of the family.
pub open spec fn mech_name(alg: HashAlg) -> Seq<char> {
    match alg {
        HashAlg::Sha1 => "SCRAM-SHA-1"@,
        HashAlg::Sha256 => "SCRAM-SHA-256"@,
    }
}

/// The textual form of an entry:
/// `$<mech>$<iterations>$<salt-b64>$<stored-key-b64>$<server-key-b64>`.
pub open spec fn format_spec(m: ScramEntryModel) -> Seq<char> {
    seq!['$'] + mech_name(m.alg) + seq!['$'] + "4096"@ + seq!['$'] + b64_of(m.salt) + seq!['$']
        + b64_of(m.stored_key) + seq!['$'] + b64_of(m.server_key)
}

/// The text split at every `$`.
pub open spec fn dollar_fields(s: Seq<char>) -> Seq<Seq<char>>
    decreases s.len(),
{
    let k = scan_to(s, 0, seq!['$']);
    if k < 0 || k >= s.len() {
        seq![s]
    } else {
        seq![s.take(k)] + dollar_fields(s.subrange(k + 1, s.len() as int))
    }
}

/// The parse of the textual form for an expected family: six fields, the
/// family's mechanism name, the fixed iteration count, three base64
/// fields, digest-sized keys.
pub open spec fn parse_spec(alg: HashAlg, s: Seq<char>) -> Option<ScramEntryModel> {
    let fs = dollar_fields(s);
    if fs.len() != 6 || fs[0].len() != 0 || fs[1] != mech_name(alg) || fs[2] != "4096"@ {
        None
    } else {
        match (b64_decode_of(fs[3]), b64_decode_of(fs[4]), b64_decode_of(fs[5])) {
            (Some(salt), Some(stored), Some(server)) => {
                if stored.len() == hash_len(alg) && server.len() == hash_len(alg) {
                    Some(
                        ScramEntryModel {
                            alg,
                            iterations: scram_iterations(),
                            salt,
                            stored_key: stored,
                            server_key: server,
                        },
                    )
                } else {
                    None
                }
            },
            _ => None,
        }
    }
}

/// Splitting a field with no `$`, a separator and a rest peels the field.
proof fn lemma_dollar_fields_cons(field: Seq<char>, rest: Seq<char>)
    requires
        forall|k: int| 0 <= k < field.len() ==> #[trigger] field[k] != '$',
    ensures
        dollar_fields(field + seq!['$'] + rest) == seq![field] + dollar_fields(rest),
{
    let s = field + seq!['$'] + rest;
    assert(starts_with_at(s, seq!['$'], field.len() as int)) by {
        assert(s[field.len() as int] == '$');
        assert(s.subrange(field.len() as int, field.len() as int + 1) =~= seq!['$']);
    }
    assert forall|j: int| 0 <= j && j + 1 <= field.len() implies !starts_with_at(
        s,
        seq!['$'],
        j,
    ) by {
        assert(s[j] == field[j]);
        if starts_with_at(s, seq!['$'], j) {
            assert(s.subrange(j, j + 1)[0] == '$');
        }
    }
    crate::xml::round_trip::lemma_scan_to_exact_pub(s, 0, seq!['$'], field.len() as int);
    assert(s.take(field.len() as int) =~= field);
    assert(s.subrange(field.len() as int + 1, s.len() as int) =~= rest);
}

/// Splitting a final field with no `$` yields it alone.
proof fn lemma_dollar_fields_last(field: Seq<char>)
    requires
        forall|k: int| 0 <= k < field.len() ==> #[trigger] field[k] != '$',
    ensures
        dollar_fields(field) == seq![field],
{
    assert forall|j: int| 0 <= j implies !starts_with_at(field, seq!['$'], j) by {
        if starts_with_at(field, seq!['$'], j) {
            assert(field.subrange(j, j + 1)[0] == '$');
            assert(field[j] == '$');
        }
    }
    crate::xml::round_trip::lemma_scan_to_absent_pub(field, 0, seq!['$']);
}

/// The mechanism names and the iteration count hold no separator.
proof fn lemma_fixed_fields_clean(alg: HashAlg)
    ensures
        forall|k: int| 0 <= k < mech_name(alg).len() ==> #[trigger] mech_name(alg)[k] != '$',
        forall|k: int| 0 <= k < "4096"@.len() ==> #[trigger] "4096"@[k] != '$',
{
    reveal_strlit("SCRAM-SHA-1");
    reveal_strlit("SCRAM-SHA-256");
    reveal_strlit("4096");
}

/// Parsing the textual form of a well-formed entry gives it back, when
/// the three base64 fields decode to the entry's bytes.
proof fn lemma_codec_round_trip(m: ScramEntryModel)
    requires
        entry_wf(m),
        b64_decode_of(b64_of(m.salt)) == Some(m.salt),
        b64_decode_of(b64_of(m.stored_key)) == Some(m.stored_key),
        b64_decode_of(b64_of(m.server_key)) == Some(m.server_key),
        forall|k: int| 0 <= k < b64_of(m.salt).len() ==> #[trigger] b64_of(m.salt)[k] != '$',
        forall|k: int|
            0 <= k < b64_of(m.stored_key).len() ==> #[trigger] b64_of(m.stored_key)[k] != '$',
        forall|k: int|
            0 <= k < b64_of(m.server_key).len() ==> #[trigger] b64_of(m.server_key)[k] != '$',
    ensures
        parse_spec(m.alg, format_spec(m)) == Some(m),
{
    lemma_fixed_fields_clean(m.alg);
    let s = format_spec(m);
    let f0 = Seq::<char>::empty();
    let f1 = mech_name(m.alg);
    let f2 = "4096"@;
    let f3 = b64_of(m.salt);
    let f4 = b64_of(m.stored_key);
    let f5 = b64_of(m.server_key);
    let tail4 = f4 + seq!['$'] + f5;
    let tail3 = f3 + seq!['$'] + tail4;
    let tail2 = f2 + seq!['$'] + tail3;
    let tail1 = f1 + seq!['$'] + tail2;
    assert(s =~= f0 + seq!['$'] + tail1);
    lemma_dollar_fields_last(f5);
    lemma_dollar_fields_cons(f4, f5);
    assert(dollar_fields(tail4) =~= seq![f4, f5]);
    lemma_dollar_fields_cons(f3, tail4);
    assert(dollar_fields(tail3) =~= seq![f3, f4, f5]);
    lemma_dollar_fields_cons(f2, tail3);
    assert(dollar_fields(tail2) =~= seq![f2, f3, f4, f5]);
    lemma_dollar_fields_cons(f1, tail2);
    assert(dollar_fields(tail1) =~= seq![f1, f2, f3, f4, f5]);
    lemma_dollar_fields_cons(f0, tail1);
    assert(dollar_fields(s) =~= seq![f0, f1, f2, f3, f4, f5]);
    assert(parse_spec(m.alg, s) == Some(
        ScramEntryModel {
            alg: m.alg,
            iterations: scram_iterations(),
            salt: m.salt,
            stored_key: m.stored_key,
            server_key: m.server_key,
        },
    ));
    assert(ScramEntryModel {
        alg: m.alg,
        iterations: scram_iterations(),
        salt: m.salt,
        stored_key: m.stored_key,
        server_key: m.server_key,
    } =~= m);
}

impl StoredPasswordScram {
    /// Writes the entry in its textual form. The law of the codec stands
    /// in the second clause: the text parses back to this very entry.
    pub fn format(&self) -> (r: String)
        requires
            entry_wf(self@),
        ensures
            r@ == format_spec(self@),
            parse_spec(self@.alg, r@) == Some(self@),
    {
        proof {
            reveal_strlit("$");
            reveal_strlit("4096");
            reveal_strlit("SCRAM-SHA-1");
            reveal_strlit("SCRAM-SHA-256");
            assert("$"@ =~= seq!['$']);
        }
        let mut out = String::new();
        out.append("$");
        match self.alg {
            HashAlg::Sha1 => out.append("SCRAM-SHA-1"),
            HashAlg::Sha256 => out.append("SCRAM-SHA-256"),
        }
        out.append("$");
        out.append("4096");
        out.append("$");
        let salt_b64 = b64_encode(&self.salt);
        out.append(salt_b64.as_str());
        out.append("$");
        let stored_b64 = b64_encode(&self.stored_key);
        out.append(stored_b64.as_str());
        out.append("$");
        let server_b64 = b64_encode(&self.server_key);
        out.append(server_b64.as_str());
        proof {
            assert(out@ =~= format_spec(self@));
            lemma_codec_round_trip(self@);
        }
        out
    }

    /// Parses the textual form for an expected family, rejecting a wrong
    /// field count, a foreign mechanism name, any iteration count other
    /// than the fixed one, undecodable base64 and missized keys.
    pub fn parse(alg: HashAlg, s: &str) -> (r: Result<StoredPasswordScram, StoredPasswordError>)
        ensures
            match r {
                Ok(e) => parse_spec(alg, s@) == Some(e@) && entry_wf(e@),
                Err(_) => parse_spec(alg, s@) is None,
            },
    {
        let fields = e_dollar_fields(s);
        let ghost fs = dollar_fields(s@);
        if fields.len() != 6 {
            return Err(StoredPasswordError::Malformed);
        }
        if !fields[0].as_str().is_empty() {
            return Err(StoredPasswordError::Malformed);
        }
        let mech_ok = match alg {
            HashAlg::Sha1 => str_eq(fields[1].as_str(), "SCRAM-SHA-1"),
            HashAlg::Sha256 => str_eq(fields[1].as_str(), "SCRAM-SHA-256"),
        };
        if !mech_ok {
            return Err(StoredPasswordError::Malformed);
        }
        if !str_eq(fields[2].as_str(), "4096") {
            return Err(StoredPasswordError::Malformed);
        }
        let salt = match b64_decode(fields[3].as_str()) {
            Ok(v) => v,
            Err(_) => {
                return Err(StoredPasswordError::Malformed);
            },
        };
        let stored_key = match b64_decode(fields[4].as_str()) {
            Ok(v) => v,
            Err(_) => {
                return Err(StoredPasswordError::Malformed);
            },
        };
        let server_key = match b64_decode(fields[5].as_str()) {
            Ok(v) => v,
            Err(_) => {
                return Err(StoredPasswordError::Malformed);
            },
        };
        let expected_len: usize = match alg {
            HashAlg::Sha1 => 20,
            HashAlg::Sha256 => 32,
        };
        if stored_key.len() != expected_len || server_key.len() != expected_len {
            return Err(StoredPasswordError::Malformed);
        }
        Ok(StoredPasswordScram { alg, iterations: 4096, salt, stored_key, server_key })
    }
}

/// The text split at every `$`, executable.
fn e_dollar_fields(s: &str) -> (r: Vec<String>)
    ensures
        r@.len() == dollar_fields(s@).len(),
        forall|k: int| 0 <= k < r@.len() ==> r@[k]@ == #[trigger] dollar_fields(s@)[k],
    decreases s@.len(),
{
    proof {
        reveal_strlit("$");
        assert("$"@ =~= seq!['$']);
    }
    let k = crate::xml::parser::e_scan_to(s, "$", 0);
    let n = s.unicode_len();
    if k == n {
        let mut r: Vec<String> = Vec::new();
        r.push(s.to_owned());
        proof {
            assert(dollar_fields(s@) =~= seq![s@]);
        }
        r
    } else {
        let field = s.substring_char(0, k).to_owned();
        let rest = s.substring_char(k + 1, n);
        let mut r: Vec<String> = Vec::new();
        r.push(field);
        let tail = e_dollar_fields(rest);
        let tn = tail.len();
        let ghost spec_tail = dollar_fields(rest@);
        for i in 0..tn
            invariant
                tn == tail.len(),
                spec_tail == dollar_fields(rest@),
                tn == spec_tail.len(),
                forall|w: int| 0 <= w < tn ==> tail@[w]@ == #[trigger] spec_tail[w],
                r@.len() == i + 1,
                r@[0]@ == s@.take(k as int),
                forall|w: int| 1 <= w < i + 1 ==> r@[w]@ == #[trigger] spec_tail[w - 1],
        {
            r.push(tail[i].clone());
        }
        proof {
            assert(dollar_fields(s@) == seq![s@.take(k as int)] + spec_tail);
        }
        r
    }
}

/// The server-side acceptance of a client proof over the authentication
/// message: recombining the proof with the client signature and hashing
/// must give the stored key back.
pub open spec fn proof_ok(e: ScramEntryModel, auth_msg: Seq<u8>, proof: Seq<u8>) -> bool {
    hash_of(e.alg, xor_bytes(proof, hmac_of(e.alg, e.stored_key, auth_msg))) == e.stored_key
}

/// The proof an honest client computes: its client key combined with the
/// client signature.
pub open spec fn client_proof_of(
    alg: HashAlg,
    pw: Seq<u8>,
    salt: Seq<u8>,
    auth_msg: Seq<u8>,
) -> Seq<u8> {
    xor_bytes(
        client_key_of(alg, pw, salt),
        hmac_of(alg, stored_key_of(alg, pw, salt), auth_msg),
    )
}

/// An honest client's proof is accepted: recombining it with the client
/// signature gives the client key back, whose hash is the stored key.
pub proof fn lemma_honest_client_accepted(
    alg: HashAlg,
    pw: Seq<u8>,
    salt: Seq<u8>,
    auth_msg: Seq<u8>,
)
    ensures
        proof_ok(entry_of(alg, pw, salt), auth_msg, client_proof_of(alg, pw, salt, auth_msg)),
{
    let e = entry_of(alg, pw, salt);
    let ck = client_key_of(alg, pw, salt);
    let sig = hmac_of(alg, e.stored_key, auth_msg);
    lemma_xor_involution(ck, sig);
    assert(xor_bytes(client_proof_of(alg, pw, salt, auth_msg), sig) == ck);
}

impl StoredPasswordScram {
    /// The iteration count of the entry.
    pub fn iterations(&self) -> (r: u32)
        ensures
            r == self@.iterations,
    {
        self.iterations
    }

    /// Copies the entry.
    pub fn duplicate(&self) -> (r: StoredPasswordScram)
        ensures
            r@ == self@,
    {
        StoredPasswordScram {
            alg: self.alg,
            iterations: self.iterations,
            salt: self.salt.clone(),
            stored_key: self.stored_key.clone(),
            server_key: self.server_key.clone(),
        }
    }
}

} // verus!
