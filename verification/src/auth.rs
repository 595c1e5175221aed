//! The handshake's cryptography: the P-256 key agreement of `ring`, and the proof of the
//! password, the SHA-256 digest of the password, the shared secret of the key agreement and
//! the challenge salt, in that order, in lowercase hexadecimal.
use ring::agreement::{agree_ephemeral, EphemeralPrivateKey, UnparsedPublicKey, ECDH_P256};
use ring::digest::{digest, SHA256};
use vstd::prelude::*;
use vstd::string::StringSliceAdditionalSpecFns;

use crate::hex::{bytes_to_hex, hex_encode};

verus! {

/// The largest input, plus one, that SHA-256 takes: its length in bits must fit in 64 bits.
pub const DIGEST_INPUT_END: u64 = 0x2000_0000_0000_0000;

/// The SHA-256 digest of `data`.
pub uninterp spec fn sha256_digest(data: Seq<u8>) -> Seq<u8>;

/// `ring::digest::digest` with `ring::digest::SHA256`: the digest of `data`, whose length is
/// `SHA256_OUTPUT_LEN`, 32 bytes. `ring` panics on an input whose length in bits does not fit
/// in 64 bits, which `requires` leaves out.
#[verifier::external_body]
fn sha256(data: &[u8]) -> (d: Vec<u8>)
    requires
        data@.len() < DIGEST_INPUT_END,
    ensures
        d@ == sha256_digest(data@),
        d@.len() == 32,
{
    digest(&SHA256, data).as_ref().to_vec()
}

/// What the proof digests: the bytes of the password, then the shared secret, then the bytes
/// of the salt.
pub open spec fn proof_input(password: Seq<u8>, secret: Seq<u8>, salt: Seq<u8>) -> Seq<u8> {
    password + secret + salt
}

/// The proof of `password` for this shared secret and salt.
pub open spec fn auth_proof(password: Seq<u8>, secret: Seq<u8>, salt: Seq<u8>) -> Seq<char> {
    hex_encode(sha256_digest(proof_input(password, secret, salt)))
}

/// The bytes that the proof digests.
pub fn proof_material(password: &str, shared_secret: &[u8], salt: &str) -> (m: Vec<u8>)
    requires
        password.spec_bytes().len() + shared_secret@.len() + salt.spec_bytes().len() <= usize::MAX,
    ensures
        m@ == proof_input(password.spec_bytes(), shared_secret@, salt.spec_bytes()),
{
    let mut m: Vec<u8> = Vec::new();
    let p = password.as_bytes();
    let s = salt.as_bytes();
    let mut i: usize = 0;
    while i < p.len()
        invariant
            i <= p@.len(),
            m@ == p@.take(i as int),
        decreases p.len() - i,
    {
        m.push(p[i]);
        i = i + 1;
        assert(m@ =~= p@.take(i as int));
    }
    assert(p@.take(p@.len() as int) =~= p@);
    let mut j: usize = 0;
    while j < shared_secret.len()
        invariant
            j <= shared_secret@.len(),
            m@ == p@ + shared_secret@.take(j as int),
        decreases shared_secret.len() - j,
    {
        m.push(shared_secret[j]);
        j = j + 1;
        assert(m@ =~= p@ + shared_secret@.take(j as int));
    }
    assert(shared_secret@.take(shared_secret@.len() as int) =~= shared_secret@);
    let mut k: usize = 0;
    while k < s.len()
        invariant
            k <= s@.len(),
            m@ == p@ + shared_secret@ + s@.take(k as int),
        decreases s.len() - k,
    {
        m.push(s[k]);
        k = k + 1;
        assert(m@ =~= p@ + shared_secret@ + s@.take(k as int));
    }
    assert(s@.take(s@.len() as int) =~= s@);
    m
}

/// The proof of knowledge of `password` for this shared secret and salt, as the client sends
/// it and the server expects it.
pub fn compute_auth_proof(password: &str, shared_secret: &[u8], salt: &str) -> (proof: String)
    requires
        password.spec_bytes().len() + shared_secret@.len() + salt.spec_bytes().len() < DIGEST_INPUT_END,
        password.spec_bytes().len() + shared_secret@.len() + salt.spec_bytes().len() <= usize::MAX,
    ensures
        proof@ == auth_proof(password.spec_bytes(), shared_secret@, salt.spec_bytes()),
{
    let material = proof_material(password, shared_secret, salt);
    let d = sha256(material.as_slice());
    bytes_to_hex(d.as_slice())
}

// ---------------------------------------------------------------------------
// Key agreement
// ---------------------------------------------------------------------------

/// Declares `ring::agreement::EphemeralPrivateKey` so that it can stand in signatures.
#[verifier::external_type_specification]
#[verifier::external_body]
pub struct ExEphemeralPrivateKey(ring::agreement::EphemeralPrivateKey);

/// Declares `ring::error::Unspecified` so that it can stand in signatures.
#[verifier::external_type_specification]
#[verifier::external_body]
pub struct ExUnspecified(ring::error::Unspecified);

/// The length of a P-256 public key in uncompressed form: a tag byte and two coordinates.
pub const PUBLIC_KEY_LEN: usize = 65;

/// The tag byte of the uncompressed form.
pub const UNCOMPRESSED_TAG: u8 = 4;

/// The length of a P-256 shared secret.
pub const SHARED_SECRET_LEN: usize = 32;

/// Why the key agreement failed.
#[derive(Debug, Clone, Copy, PartialEq, Eq, Structural)]
pub enum KeyExchangeError {
    /// No private key could be generated.
    KeyGeneration,
    /// The public key of the private key could not be computed.
    PublicKey,
    /// The peer's public key was refused.
    Agreement,
}

impl KeyExchangeError {
    /// The message that reports this error.
    pub fn message(&self) -> (s: String)
        ensures
            s@ == key_exchange_message(*self),
    {
        match self {
            KeyExchangeError::KeyGeneration => "ECDH key generation failed".to_owned(),
            KeyExchangeError::PublicKey => "ECDH public key computation failed".to_owned(),
            KeyExchangeError::Agreement => "ECDH key agreement failed".to_owned(),
        }
    }
}

/// The message text of each error.
pub open spec fn key_exchange_message(e: KeyExchangeError) -> Seq<char> {
    match e {
        KeyExchangeError::KeyGeneration => "ECDH key generation failed"@,
        KeyExchangeError::PublicKey => "ECDH public key computation failed"@,
        KeyExchangeError::Agreement => "ECDH key agreement failed"@,
    }
}

/// `ring::agreement::EphemeralPrivateKey::generate` for `ECDH_P256`, with a new
/// `ring::rand::SystemRandom`. The key is random; it fails only when the system's random
/// source does.
#[verifier::external_body]
fn generate_private_key() -> (r: Result<EphemeralPrivateKey, ring::error::Unspecified>) {
    EphemeralPrivateKey::generate(&ECDH_P256, &ring::rand::SystemRandom::new())
}

/// `ring::agreement::EphemeralPrivateKey::compute_public_key`: the public key of a P-256
/// private key in the uncompressed form of SEC 1, a tag byte 4 and two 32-byte coordinates.
#[verifier::external_body]
fn compute_public_key(private_key: &EphemeralPrivateKey) -> (r: Result<Vec<u8>, ring::error::Unspecified>)
    ensures
        r matches Ok(k) ==> k@.len() == PUBLIC_KEY_LEN && k@[0] == UNCOMPRESSED_TAG,
{
    match private_key.compute_public_key() {
        Ok(k) => Ok(k.as_ref().to_vec()),
        Err(e) => Err(e),
    }
}

/// A copy of the bytes.
fn copy_bytes(b: &[u8]) -> (v: Vec<u8>)
    ensures
        v@ == b@,
{
    let mut v: Vec<u8> = Vec::new();
    let mut i: usize = 0;
    while i < b.len()
        invariant
            i <= b@.len(),
            v@ == b@.take(i as int),
        decreases b.len() - i,
    {
        v.push(b[i]);
        i = i + 1;
        assert(v@ =~= b@.take(i as int));
    }
    assert(b@.take(b@.len() as int) =~= b@);
    v
}

/// The secret that the holder of the private key of `own_public_key` and the holder of
/// `peer_public_key` agree on by P-256 ECDH (SP 800-56A): the x-coordinate of the product of
/// the private key and the peer's point, 32 bytes; `None` when `peer_public_key` is not a
/// valid P-256 public key in uncompressed form. Both parties reach the same secret.
pub uninterp spec fn ecdh_shared_secret(own_public_key: Seq<u8>, peer_public_key: Seq<u8>) -> Option<
    Seq<u8>,
>;

/// A key pair for one handshake: a P-256 private key and its public key in uncompressed form.
/// Only `new_key_pair` makes one, from the public key that `ring` computes for the private key.
pub struct KeyPair {
    private_key: EphemeralPrivateKey,
    public_key: Vec<u8>,
}

impl View for KeyPair {
    type V = Seq<u8>;

    /// The public key.
    closed spec fn view(&self) -> Seq<u8> {
        self.public_key@
    }
}

impl KeyPair {
    #[verifier::type_invariant]
    closed spec fn wf(self) -> bool {
        self.public_key@.len() == PUBLIC_KEY_LEN && self.public_key@[0] == UNCOMPRESSED_TAG
    }

    /// The public key, to be sent to the peer.
    pub fn public_key(&self) -> (k: &Vec<u8>)
        ensures
            k@ == self@,
            k@.len() == PUBLIC_KEY_LEN,
            k@[0] == UNCOMPRESSED_TAG,
    {
        proof { use_type_invariant(self); }
        &self.public_key
    }
}

/// `ring::agreement::agree_ephemeral` of the key pair's private key and the peer's public key
/// (read as `ECDH_P256`), keeping the shared secret. `ring` refuses a peer key that is not a
/// valid P-256 public key; otherwise the result is the ECDH secret of the two keys, which is
/// what the holder of the peer's private key reaches with our public key. The key pair's
/// public key is that of its private key (see `KeyPair`).
#[verifier::external_body]
fn agree(key_pair: KeyPair, peer_public_key: &[u8]) -> (r: Result<Vec<u8>, ring::error::Unspecified>)
    ensures
        r is Ok <==> ecdh_shared_secret(key_pair@, peer_public_key@) is Some,
        r matches Ok(s) ==> {
            &&& Some(s@) == ecdh_shared_secret(key_pair@, peer_public_key@)
            &&& Some(s@) == ecdh_shared_secret(peer_public_key@, key_pair@)
            &&& s@.len() == SHARED_SECRET_LEN
        },
{
    agree_ephemeral(
        key_pair.private_key,
        &UnparsedPublicKey::new(&ECDH_P256, peer_public_key),
        |s: &[u8]| copy_bytes(s),
    )
}

/// A fresh P-256 key pair for one handshake.
pub fn new_key_pair() -> (r: Result<KeyPair, KeyExchangeError>)
    ensures
        r matches Ok(k) ==> k@.len() == PUBLIC_KEY_LEN && k@[0] == UNCOMPRESSED_TAG,
        r matches Err(e) ==> e == KeyExchangeError::KeyGeneration || e == KeyExchangeError::PublicKey,
{
    let private_key = match generate_private_key() {
        Ok(k) => k,
        Err(_) => {
            return Err(KeyExchangeError::KeyGeneration);
        },
    };
    match compute_public_key(&private_key) {
        Ok(public_key) => Ok(KeyPair { private_key, public_key }),
        Err(_) => Err(KeyExchangeError::PublicKey),
    }
}

/// The proof of `password` over the secret that the holder of `own_public_key` agrees on with
/// the holder of `peer_public_key`, for `salt`; `None` when they agree on none.
pub open spec fn proof_over_agreement(
    password: Seq<u8>,
    own_public_key: Seq<u8>,
    peer_public_key: Seq<u8>,
    salt: Seq<u8>,
) -> Option<Seq<char>> {
    match ecdh_shared_secret(own_public_key, peer_public_key) {
        Some(secret) => Some(auth_proof(password, secret, salt)),
        None => None,
    }
}

/// Both holders agree on the same secret.
pub open spec fn keys_agree(a: Seq<u8>, b: Seq<u8>) -> bool {
    &&& ecdh_shared_secret(a, b) is Some
    &&& ecdh_shared_secret(a, b) == ecdh_shared_secret(b, a)
}

/// The proof of `password` over the secret that `key_pair` agrees on with the holder of
/// `peer_public_key`, for `salt`; `Agreement` when the peer's key is refused. On success the
/// peer reaches the same secret with our public key.
pub fn agreed_proof(key_pair: KeyPair, peer_public_key: &[u8], password: &str, salt: &str) -> (r:
    Result<String, KeyExchangeError>)
    requires
        password.spec_bytes().len() + SHARED_SECRET_LEN + salt.spec_bytes().len() < DIGEST_INPUT_END,
        password.spec_bytes().len() + SHARED_SECRET_LEN + salt.spec_bytes().len() <= usize::MAX,
    ensures
        match proof_over_agreement(password.spec_bytes(), key_pair@, peer_public_key@, salt.spec_bytes()) {
            Some(p) => r matches Ok(x) && x@ == p,
            None => r == Err::<String, KeyExchangeError>(KeyExchangeError::Agreement),
        },
        r is Ok ==> keys_agree(key_pair@, peer_public_key@),
{
    match agree(key_pair, peer_public_key) {
        Ok(secret) => {
            let p = compute_auth_proof(password, secret.as_slice(), salt);
            Ok(p)
        },
        Err(_) => Err(KeyExchangeError::Agreement),
    }
}

/// Client and server with the same password reach the same proof: the client sends the proof
/// over the secret its key agrees on with the server's key, and the server, whose key agreed
/// with the client's (as `agreed_proof` ensures on success), expects the proof over the secret
/// its key agrees on with the client's.
pub proof fn law_handshake_proofs_agree(
    password: Seq<u8>,
    salt: Seq<u8>,
    client_public_key: Seq<u8>,
    server_public_key: Seq<u8>,
)
    requires
        keys_agree(server_public_key, client_public_key),
    ensures
        proof_over_agreement(password, client_public_key, server_public_key, salt) is Some,
        proof_over_agreement(password, client_public_key, server_public_key, salt)
            == proof_over_agreement(password, server_public_key, client_public_key, salt),
{
}

} // verus!
