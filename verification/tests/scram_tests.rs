//! SCRAM derivation, the stored-password codec, and the exchange.

use base64::prelude::BASE64_STANDARD;
use base64::Engine;
use confidante::sasl::scram_server::{ScramFinal, ScramServer};
use confidante::scram::{hash, hmac, pbkdf2, xor_vec, HashAlg, StoredPasswordScram};

fn password() -> Vec<u8> {
    b"pencil".to_vec()
}

fn salt() -> Vec<u8> {
    b"0123456789abcdef".to_vec()
}

/// The client's view of the exchange: its proof over the authentication
/// message.
fn client_proof(alg: HashAlg, pw: &Vec<u8>, salt: &Vec<u8>, auth_msg: &str) -> Vec<u8> {
    let salted = pbkdf2(alg, pw, salt, 4096);
    let ck = hmac(alg, &salted, &b"Client Key".to_vec());
    let stored = hash(alg, &ck);
    let sig = hmac(alg, &stored, &auth_msg.as_bytes().to_vec());
    xor_vec(&ck, &sig)
}

#[test]
fn derive_then_verify_sha1() {
    let entry = StoredPasswordScram::derive_with_salt(HashAlg::Sha1, &password(), &salt());
    assert!(entry.verify_password(&password()));
    assert!(!entry.verify_password(&b"wrong".to_vec()));
}

#[test]
fn derive_then_verify_sha256() {
    let entry = StoredPasswordScram::derive_with_salt(HashAlg::Sha256, &password(), &salt());
    assert!(entry.verify_password(&password()));
    assert!(!entry.verify_password(&b"wrong".to_vec()));
}

#[test]
fn random_salt_entry_verifies() {
    let entry = StoredPasswordScram::new(HashAlg::Sha1, &password());
    assert_eq!(entry.salt_bytes().len(), 16);
    assert!(entry.verify_password(&password()));
}

#[test]
fn pbkdf2_known_vector() {
    // RFC 6070 test vector: P = "password", S = "salt", c = 4096.
    let out = pbkdf2(HashAlg::Sha1, &b"password".to_vec(), &b"salt".to_vec(), 4096);
    let expected: [u8; 20] = [
        0x4b, 0x00, 0x79, 0x01, 0xb7, 0x65, 0x48, 0x9a, 0xbe, 0xad, 0x49, 0xd9, 0x26, 0xf7, 0x21,
        0xd0, 0x65, 0xa4, 0x29, 0xc1,
    ];
    assert_eq!(out.as_slice(), expected.as_slice());
}

#[test]
fn stored_entry_round_trips_through_text() {
    let entry = StoredPasswordScram::derive_with_salt(HashAlg::Sha1, &password(), &salt());
    let text = entry.format();
    let parsed = StoredPasswordScram::parse(HashAlg::Sha1, text.as_str()).unwrap();
    assert_eq!(parsed.salt_bytes(), entry.salt_bytes());
    assert_eq!(parsed.stored_key_bytes(), entry.stored_key_bytes());
    assert_eq!(parsed.server_key_bytes(), entry.server_key_bytes());
    assert_eq!(parsed.iterations(), 4096);
    assert_eq!(parsed.format(), text);
}

#[test]
fn stored_entry_text_shape() {
    let entry = StoredPasswordScram::derive_with_salt(HashAlg::Sha1, &password(), &salt());
    let text = entry.format();
    assert!(text.starts_with("$SCRAM-SHA-1$4096$"));
    let fields: Vec<&str> = text.split('$').collect();
    assert_eq!(fields.len(), 6);
    assert_eq!(
        BASE64_STANDARD.decode(fields[3]).unwrap(),
        salt()
    );
}

#[test]
fn parse_rejects_wrong_mechanism() {
    let entry = StoredPasswordScram::derive_with_salt(HashAlg::Sha1, &password(), &salt());
    let text = entry.format();
    assert!(StoredPasswordScram::parse(HashAlg::Sha256, text.as_str()).is_err());
}

#[test]
fn parse_rejects_wrong_iteration_count() {
    let entry = StoredPasswordScram::derive_with_salt(HashAlg::Sha1, &password(), &salt());
    let text = entry.format().replace("$4096$", "$8192$");
    assert!(StoredPasswordScram::parse(HashAlg::Sha1, text.as_str()).is_err());
}

#[test]
fn parse_rejects_wrong_field_count() {
    assert!(StoredPasswordScram::parse(HashAlg::Sha1, "$SCRAM-SHA-1$4096$only").is_err());
    assert!(StoredPasswordScram::parse(HashAlg::Sha1, "").is_err());
}

fn run_exchange(alg: HashAlg, entry: Option<StoredPasswordScram>, proof_password: &Vec<u8>) ->
    ScramFinal {
    let mut server = ScramServer::new(alg, "localhost".to_string());
    let authid = server.client_first("n,,n=user,r=clientnonce").unwrap();
    assert_eq!(authid, "user");
    let challenge = server.server_first(entry).unwrap();
    assert!(challenge.starts_with("r=clientnonce"));
    let full_nonce = &challenge[2..challenge.find(",s=").unwrap()];
    let without_proof = format!("c=biws,r={}", full_nonce);
    let auth_msg = format!("n=user,r=clientnonce,{},{}", challenge, without_proof);
    let proof = client_proof(alg, proof_password, &salt(), auth_msg.as_str());
    let client_final = format!(
        "{},p={}",
        without_proof,
        BASE64_STANDARD.encode(proof.as_slice())
    );
    server.client_final(client_final.as_str())
}

/// A correct proof is accepted and yields the authenticated identity.
#[test]
fn exchange_accepts_the_right_password() {
    let entry = StoredPasswordScram::derive_with_salt(HashAlg::Sha1, &password(), &salt());
    match run_exchange(HashAlg::Sha1, Some(entry), &password()) {
        ScramFinal::Accepted { jid, server_final } => {
            assert_eq!(jid.as_text(), "user@localhost");
            assert!(server_final.starts_with("v="));
        }
        ScramFinal::Rejected => panic!("the right password was rejected"),
    }
}

/// A wrong proof is rejected after the same computations.
#[test]
fn exchange_rejects_a_bad_proof() {
    let entry = StoredPasswordScram::derive_with_salt(HashAlg::Sha1, &password(), &salt());
    match run_exchange(HashAlg::Sha1, Some(entry), &b"wrong".to_vec()) {
        ScramFinal::Rejected => {}
        ScramFinal::Accepted { .. } => panic!("a bad proof was accepted"),
    }
}

/// An unknown user still receives a challenge and fails only at the end.
#[test]
fn exchange_rejects_an_unknown_user() {
    match run_exchange(HashAlg::Sha1, None, &password()) {
        ScramFinal::Rejected => {}
        ScramFinal::Accepted { .. } => panic!("an unknown user was accepted"),
    }
}

/// The SHA-256 family runs the same exchange.
#[test]
fn exchange_accepts_sha256() {
    let entry = StoredPasswordScram::derive_with_salt(HashAlg::Sha256, &password(), &salt());
    match run_exchange(HashAlg::Sha256, Some(entry), &password()) {
        ScramFinal::Accepted { jid, .. } => {
            assert_eq!(jid.as_text(), "user@localhost");
        }
        ScramFinal::Rejected => panic!("the right password was rejected"),
    }
}

/// A nonce that does not echo the server's is rejected.
#[test]
fn exchange_rejects_a_wrong_nonce() {
    let entry = StoredPasswordScram::derive_with_salt(HashAlg::Sha1, &password(), &salt());
    let mut server = ScramServer::new(HashAlg::Sha1, "localhost".to_string());
    server.client_first("n,,n=user,r=clientnonce").unwrap();
    let _challenge = server.server_first(Some(entry)).unwrap();
    let without_proof = "c=biws,r=somethingelse";
    let proof = client_proof(HashAlg::Sha1, &password(), &salt(), "whatever");
    let client_final = format!(
        "{},p={}",
        without_proof,
        BASE64_STANDARD.encode(proof.as_slice())
    );
    match server.client_final(client_final.as_str()) {
        ScramFinal::Rejected => {}
        ScramFinal::Accepted { .. } => panic!("a wrong nonce was accepted"),
    }
}
