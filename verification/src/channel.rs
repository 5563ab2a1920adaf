//! The confidential channel around the AEAD core: the base64 wire form of
//! a sealed payload, ephemeral ECDH key agreement producing the session
//! secret, and verification of a caller's signature over a message.

use vstd::prelude::*;

use crate::aead;
use crate::aead::{aes256gcm_open, CryptoError};

verus! {

/// The wire form of a confidential payload: three base64 text fields
/// carrying the 12-byte nonce, the ciphertext with its 16-byte tag, and
/// the sender's ephemeral public key.
pub struct AeadCipher {
    pub iv_b64: String,
    pub cipher_b64: String,
    pub pubkey_b64: String,
}

/// A decrypted payload together with the agreed session secret.
pub struct DecryptOutput {
    pub msg: Vec<u8>,
    pub secret: Vec<u8>,
}

/// The field of a wire record that could not be decoded.
#[derive(Clone, Copy, PartialEq, Eq, Structural, Debug)]
pub enum InputField {
    IvB64,
    CipherB64,
    PubkeyB64,
    SigB64,
    OriginHex,
}

/// Failures of the confidential channel.
#[derive(Clone, Copy, PartialEq, Eq, Structural, Debug)]
pub enum ChannelError {
    /// A wire field held malformed text, or the nonce was not 12 bytes.
    BadInput(InputField),
    /// The peer's public key was rejected by key agreement.
    AgreementFailed,
    /// The AEAD core rejected the sealed data.
    Crypto(CryptoError),
}

/// What base64 decoding with the standard alphabet returns for a text:
/// the decoded bytes, or nothing for malformed text.
pub uninterp spec fn b64_decode(s: Seq<char>) -> Option<Seq<u8>>;

/// Relies on base64's standard-alphabet, padded `Engine::decode`: the
/// result depends on the input text alone.
#[verifier::external_body]
fn base64_decode(s: &String) -> (r: Result<Vec<u8>, ()>)
    ensures
        match r {
            Ok(v) => b64_decode(s@) == Some(v@),
            Err(()) => b64_decode(s@) is None,
        },
{
    match base64::Engine::decode(&base64::engine::general_purpose::STANDARD, s.as_bytes()) {
        Ok(v) => Ok(v),
        Err(_) => Err(()),
    }
}

/// Whether `c` is an ASCII hexadecimal digit.
pub open spec fn is_hex_digit(c: char) -> bool {
    ('0' <= c && c <= '9') || ('a' <= c && c <= 'f') || ('A' <= c && c <= 'F')
}

/// The value of a hexadecimal digit.
pub open spec fn hex_val(c: char) -> u8 {
    if '0' <= c && c <= '9' {
        (c as u8 - 48) as u8
    } else if 'a' <= c && c <= 'f' {
        (c as u8 - 87) as u8
    } else {
        (c as u8 - 55) as u8
    }
}

/// Whether a text is well-formed hexadecimal: even length, digits only.
pub open spec fn hex_valid(s: Seq<char>) -> bool {
    s.len() % 2 == 0 && (forall|i: int| 0 <= i < s.len() ==> is_hex_digit(s[i]))
}

/// The bytes spelled by the digit pairs of a hexadecimal text.
pub open spec fn hex_bytes(s: Seq<char>) -> Seq<u8>
    decreases s.len(),
{
    if s.len() < 2 {
        Seq::empty()
    } else {
        seq![(hex_val(s[0]) * 16 + hex_val(s[1])) as u8] + hex_bytes(s.skip(2))
    }
}

/// Relies on hex::decode: even-length texts of hexadecimal digits decode
/// to the bytes their digit pairs spell; any other text is rejected.
#[verifier::external_body]
fn hex_decode(s: &String) -> (r: Result<Vec<u8>, ()>)
    ensures
        match r {
            Ok(v) => hex_valid(s@) && v@ == hex_bytes(s@),
            Err(()) => !hex_valid(s@),
        },
{
    match hex::decode(s.as_bytes()) {
        Ok(v) => Ok(v),
        Err(_) => Err(()),
    }
}

/// ring's ephemeral agreement key, opaque to the library: it is drawn,
/// its public half is shared, and it is consumed by one agreement.
#[verifier::external_type_specification]
#[verifier::external_body]
pub struct ExEphemeralPrivateKey(ring::agreement::EphemeralPrivateKey);

/// Relies on ring's `EphemeralPrivateKey::generate` over X25519 with the
/// system random source; nothing is assumed of the key drawn.
#[verifier::external_body]
pub fn ecdh_generate() -> (r: Result<ring::agreement::EphemeralPrivateKey, ()>)
{
    let rng = ring::rand::SystemRandom::new();
    match ring::agreement::EphemeralPrivateKey::generate(&ring::agreement::X25519, &rng) {
        Ok(k) => Ok(k),
        Err(_) => Err(()),
    }
}

/// Relies on ring's `EphemeralPrivateKey::compute_public_key`: an X25519
/// public key is 32 bytes.
#[verifier::external_body]
pub fn ecdh_public_key(key: &ring::agreement::EphemeralPrivateKey) -> (r: Result<Vec<u8>, ()>)
    ensures
        match r {
            Ok(p) => p@.len() == 32,
            Err(()) => true,
        },
{
    match key.compute_public_key() {
        Ok(p) => Ok(p.as_ref().to_vec()),
        Err(_) => Err(()),
    }
}

/// Relies on ring's `agree_ephemeral` over X25519: on success the raw
/// shared secret handed to the closure is 32 bytes.  Nothing more is
/// assumed: the secret depends on the private key, which is opaque here.
#[verifier::external_body]
pub fn ecdh_agree(key: ring::agreement::EphemeralPrivateKey, peer_public: &Vec<u8>) -> (r: Result<
    Vec<u8>,
    (),
>)
    ensures
        match r {
            Ok(s) => s@.len() == 32,
            Err(()) => true,
        },
{
    let peer = ring::agreement::UnparsedPublicKey::new(
        &ring::agreement::X25519,
        peer_public.as_slice(),
    );
    match ring::agreement::agree_ephemeral(key, &peer, |secret: &[u8]| secret.to_vec()) {
        Ok(v) => Ok(v),
        Err(_) => Err(()),
    }
}

/// Decrypts a wire record: decodes its three base64 fields, agrees on a
/// session secret with the sender's ephemeral public key, and opens the
/// sealed bytes under that secret.
///
/// Each malformed field is reported as `BadInput`, checked in the order
/// public key, ciphertext, nonce; a nonce of a wrong length counts as a
/// malformed nonce field.  A rejected peer key fails the agreement; a tag
/// that does not authenticate fails the AEAD core.  On success the message
/// is exactly the authenticated opening of the ciphertext under the agreed
/// 32-byte secret and the decoded nonce.
pub fn decrypt(cipher: &AeadCipher, privkey: ring::agreement::EphemeralPrivateKey) -> (r: Result<
    DecryptOutput,
    ChannelError,
>)
    ensures
        match r {
            Ok(out) => {
                &&& b64_decode(cipher.pubkey_b64@) is Some
                &&& b64_decode(cipher.cipher_b64@) is Some
                &&& b64_decode(cipher.iv_b64@) matches Some(iv) && iv.len() == aead::IV_BYTES
                &&& out.secret@.len() == aead::KEY_BYTES
                &&& aes256gcm_open(
                    out.secret@,
                    b64_decode(cipher.iv_b64@)->Some_0,
                    b64_decode(cipher.cipher_b64@)->Some_0,
                ) == Some(out.msg@)
            },
            Err(e) => match e {
                ChannelError::BadInput(f) => match f {
                    InputField::PubkeyB64 => b64_decode(cipher.pubkey_b64@) is None,
                    InputField::CipherB64 => b64_decode(cipher.pubkey_b64@) is Some
                        && b64_decode(cipher.cipher_b64@) is None,
                    InputField::IvB64 => b64_decode(cipher.pubkey_b64@) is Some
                        && b64_decode(cipher.cipher_b64@) is Some
                        && !(b64_decode(cipher.iv_b64@) matches Some(iv) && iv.len()
                            == aead::IV_BYTES),
                    _ => false,
                },
                ChannelError::AgreementFailed => b64_decode(cipher.pubkey_b64@) is Some
                    && b64_decode(cipher.cipher_b64@) is Some
                    && (b64_decode(cipher.iv_b64@) matches Some(iv) && iv.len()
                        == aead::IV_BYTES),
                ChannelError::Crypto(ce) => ce == CryptoError::AeadDecryptError
                    && b64_decode(cipher.pubkey_b64@) is Some
                    && b64_decode(cipher.cipher_b64@) is Some
                    && (b64_decode(cipher.iv_b64@) matches Some(iv) && iv.len()
                        == aead::IV_BYTES),
            },
        },
{
    let pubkey = match base64_decode(&cipher.pubkey_b64) {
        Ok(v) => v,
        Err(()) => return Err(ChannelError::BadInput(InputField::PubkeyB64)),
    };
    let mut data = match base64_decode(&cipher.cipher_b64) {
        Ok(v) => v,
        Err(()) => return Err(ChannelError::BadInput(InputField::CipherB64)),
    };
    let iv = match base64_decode(&cipher.iv_b64) {
        Ok(v) => v,
        Err(()) => return Err(ChannelError::BadInput(InputField::IvB64)),
    };
    if iv.len() != aead::IV_BYTES {
        return Err(ChannelError::BadInput(InputField::IvB64));
    }
    let secret = match ecdh_agree(privkey, &pubkey) {
        Ok(s) => s,
        Err(()) => return Err(ChannelError::AgreementFailed),
    };
    match aead::decrypt(&iv, &secret, &mut data) {
        Ok(()) => Ok(DecryptOutput { msg: data, secret }),
        Err(e) => Err(ChannelError::Crypto(e)),
    }
}

/// What ed25519 signature verification returns: a function of signature,
/// message and public key alone.
pub uninterp spec fn ed25519_verifies(sig: Seq<u8>, msg: Seq<u8>, pubkey: Seq<u8>) -> bool;

/// What sr25519 signature verification returns: a function of signature,
/// message and public key alone.
pub uninterp spec fn sr25519_verifies(sig: Seq<u8>, msg: Seq<u8>, pubkey: Seq<u8>) -> bool;

/// What ECDSA (secp256k1, blake2-hashed message) signature verification
/// returns: a function of signature, message and public key alone.
pub uninterp spec fn ecdsa_verifies(sig: Seq<u8>, msg: Seq<u8>, pubkey: Seq<u8>) -> bool;

/// Relies on sp_core's `ed25519::Pair::verify` (with `from_raw` preparing
/// the 64-byte signature and 32-byte public key): the outcome depends on
/// signature, message and public key alone.
#[verifier::external_body]
fn ed25519_verify(sig: &Vec<u8>, msg: &Vec<u8>, pubkey: &Vec<u8>) -> (r: bool)
    requires
        sig@.len() == 64,
        pubkey@.len() == 32,
    ensures
        r == ed25519_verifies(sig@, msg@, pubkey@),
{
    let s = sp_core::ed25519::Signature::from_raw(sig.as_slice().try_into().unwrap());
    let p = sp_core::ed25519::Public::from_raw(pubkey.as_slice().try_into().unwrap());
    <sp_core::ed25519::Pair as sp_core::Pair>::verify(&s, msg.as_slice(), &p)
}

/// Relies on sp_core's `sr25519::Pair::verify` (with `from_raw` preparing
/// the 64-byte signature and 32-byte public key): the outcome depends on
/// signature, message and public key alone.
#[verifier::external_body]
fn sr25519_verify(sig: &Vec<u8>, msg: &Vec<u8>, pubkey: &Vec<u8>) -> (r: bool)
    requires
        sig@.len() == 64,
        pubkey@.len() == 32,
    ensures
        r == sr25519_verifies(sig@, msg@, pubkey@),
{
    let s = sp_core::sr25519::Signature::from_raw(sig.as_slice().try_into().unwrap());
    let p = sp_core::sr25519::Public::from_raw(pubkey.as_slice().try_into().unwrap());
    <sp_core::sr25519::Pair as sp_core::Pair>::verify(&s, msg.as_slice(), &p)
}

/// Relies on sp_core's `ecdsa::Pair::verify` (with `from_raw` preparing
/// the 65-byte signature and 33-byte compressed public key): the outcome
/// depends on signature, message and public key alone.
#[verifier::external_body]
fn ecdsa_verify(sig: &Vec<u8>, msg: &Vec<u8>, pubkey: &Vec<u8>) -> (r: bool)
    requires
        sig@.len() == 65,
        pubkey@.len() == 33,
    ensures
        r == ecdsa_verifies(sig@, msg@, pubkey@),
{
    let s = sp_core::ecdsa::Signature::from_raw(sig.as_slice().try_into().unwrap());
    let p = sp_core::ecdsa::Public::from_raw(pubkey.as_slice().try_into().unwrap());
    <sp_core::ecdsa::Pair as sp_core::Pair>::verify(&s, msg.as_slice(), &p)
}

/// The signature scheme a caller signs with.
#[derive(Clone, Copy, PartialEq, Eq, Structural, Debug)]
pub enum SignatureType {
    Ed25519,
    Sr25519,
    Ecdsa,
}

/// Whether a signature of the given scheme verifies a message under a
/// public key.  A signature or key of the wrong length for its scheme
/// never verifies.
pub open spec fn spec_sig_verifies(t: SignatureType, sig: Seq<u8>, msg: Seq<u8>, pk: Seq<u8>) -> bool {
    match t {
        SignatureType::Ed25519 => sig.len() == 64 && pk.len() == 32 && ed25519_verifies(
            sig,
            msg,
            pk,
        ),
        SignatureType::Sr25519 => sig.len() == 64 && pk.len() == 32 && sr25519_verifies(
            sig,
            msg,
            pk,
        ),
        SignatureType::Ecdsa => sig.len() == 65 && pk.len() == 33 && ecdsa_verifies(sig, msg, pk),
    }
}

/// Dispatches signature verification by scheme, rejecting a signature or
/// key of the wrong length for its scheme.
pub fn verify_signature(t: SignatureType, sig: &Vec<u8>, msg: &Vec<u8>, pubkey: &Vec<u8>) -> (r:
    bool)
    ensures
        r == spec_sig_verifies(t, sig@, msg@, pubkey@),
{
    match t {
        SignatureType::Ed25519 => {
            if sig.len() == 64 && pubkey.len() == 32 {
                ed25519_verify(sig, msg, pubkey)
            } else {
                false
            }
        },
        SignatureType::Sr25519 => {
            if sig.len() == 64 && pubkey.len() == 32 {
                sr25519_verify(sig, msg, pubkey)
            } else {
                false
            }
        },
        SignatureType::Ecdsa => {
            if sig.len() == 65 && pubkey.len() == 33 {
                ecdsa_verify(sig, msg, pubkey)
            } else {
                false
            }
        },
    }
}

/// A caller's claimed identity: a hex-encoded public key, a base64
/// signature, and the scheme the signature was made with.
pub struct Origin {
    /// The caller's public key, hex encoded.
    pub origin: String,
    /// The signature over the message, base64 encoded.
    pub sig_b64: String,
    /// The scheme of the signature.
    pub sig_type: SignatureType,
}

impl Origin {
    /// Verifies the claimed signature over `msg`.
    ///
    /// A malformed base64 signature or a malformed hex key is reported as
    /// `BadInput`, in that order; otherwise the result says whether the
    /// signature verifies under the decoded key and the claimed scheme.
    pub fn verify(&self, msg: &Vec<u8>) -> (r: Result<bool, ChannelError>)
        ensures
            match r {
                Ok(b) => b64_decode(self.sig_b64@) is Some && hex_valid(self.origin@) && b
                    == spec_sig_verifies(
                    self.sig_type,
                    b64_decode(self.sig_b64@)->Some_0,
                    msg@,
                    hex_bytes(self.origin@),
                ),
                Err(e) => match e {
                    ChannelError::BadInput(InputField::SigB64) => b64_decode(self.sig_b64@)
                        is None,
                    ChannelError::BadInput(InputField::OriginHex) => b64_decode(self.sig_b64@)
                        is Some && !hex_valid(self.origin@),
                    _ => false,
                },
            },
    {
        let sig = match base64_decode(&self.sig_b64) {
            Ok(v) => v,
            Err(()) => return Err(ChannelError::BadInput(InputField::SigB64)),
        };
        let pubkey = match hex_decode(&self.origin) {
            Ok(v) => v,
            Err(()) => return Err(ChannelError::BadInput(InputField::OriginHex)),
        };
        Ok(verify_signature(self.sig_type, &sig, msg, &pubkey))
    }
}

} // verus!
