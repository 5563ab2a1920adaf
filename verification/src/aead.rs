//! Authenticated encryption for the confidential channel: AES-256-GCM,
//! sealing in place and appending a 128-bit authentication tag.
//!
//! The key is exactly 32 bytes and the nonce exactly 12; the caller must
//! supply a fresh nonce for every sealing under one key.  No additional
//! authenticated data is used: sender and topic binding belong to the
//! envelope layer, not to the tag.

use vstd::prelude::*;

verus! {

/// Failures of the confidential channel's primitives.
#[derive(Clone, Copy, PartialEq, Eq, Structural, Debug)]
pub enum CryptoError {
    /// The secret is not a valid 256-bit key.
    AeadInvalidKey,
    /// Sealing was rejected (the key or the data was unacceptable).
    AeadEncryptError,
    /// The tag did not authenticate the data: tampering or a wrong key.
    AeadDecryptError,
}

/// The exact byte length of a nonce.
pub const IV_BYTES: usize = 12;

/// The exact byte length of a key.
pub const KEY_BYTES: usize = 32;

/// The byte length of the appended authentication tag.
pub const TAG_BYTES: usize = 16;

/// The largest data length AES-GCM will seal: ((2^39) - 256) / 8 bytes.
pub const MAX_SEAL_BYTES: u64 = 68719476704;

/// The bytes that AES-256-GCM sealing produces from a 32-byte key, a
/// 12-byte nonce and a plaintext: the ciphertext with the tag appended.
pub uninterp spec fn aes256gcm_seal(key: Seq<u8>, iv: Seq<u8>, plain: Seq<u8>) -> Seq<u8>;

/// What AES-256-GCM opening returns for a 32-byte key, a 12-byte nonce and
/// a tagged ciphertext: the plaintext when the tag authenticates, nothing
/// otherwise.
pub uninterp spec fn aes256gcm_open(key: Seq<u8>, iv: Seq<u8>, cipher: Seq<u8>) -> Option<Seq<u8>>;

/// Relies on ring's `LessSafeKey::seal_in_place_append_tag` for AES-256-GCM
/// (with `UnboundKey::new` and `Nonce::try_assume_unique_for_key` preparing
/// its arguments): with a 32-byte key, a 12-byte nonce and data within the
/// algorithm's length limit it cannot fail; it appends the 16-byte tag, the
/// sealed bytes depend on key, nonce and plaintext alone, and
/// `open_in_place` under the same key and nonce recovers the plaintext.
#[verifier::external_body]
fn ring_seal(key: &Vec<u8>, iv: &Vec<u8>, in_out: &mut Vec<u8>)
    requires
        key@.len() == KEY_BYTES,
        iv@.len() == IV_BYTES,
        old(in_out)@.len() <= MAX_SEAL_BYTES,
    ensures
        final(in_out)@ == aes256gcm_seal(key@, iv@, old(in_out)@),
        final(in_out)@.len() == old(in_out)@.len() + TAG_BYTES,
        aes256gcm_open(key@, iv@, final(in_out)@) == Some(old(in_out)@),
{
    let k = ring::aead::LessSafeKey::new(
        ring::aead::UnboundKey::new(&ring::aead::AES_256_GCM, key.as_slice()).unwrap(),
    );
    let nonce = ring::aead::Nonce::try_assume_unique_for_key(iv.as_slice()).unwrap();
    k.seal_in_place_append_tag(nonce, ring::aead::Aad::empty(), in_out).unwrap();
}

/// Relies on ring's `LessSafeKey::open_in_place` for AES-256-GCM (with
/// `UnboundKey::new` and `Nonce::try_assume_unique_for_key` preparing its
/// arguments): the outcome depends on key, nonce and ciphertext alone; it
/// fails exactly when the tag does not authenticate, and on success the
/// plaintext is the input without its 16 tag bytes.
#[verifier::external_body]
fn ring_open(key: &Vec<u8>, iv: &Vec<u8>, in_out: &mut Vec<u8>) -> (r: Result<(), ()>)
    requires
        key@.len() == KEY_BYTES,
        iv@.len() == IV_BYTES,
    ensures
        match r {
            Ok(()) => aes256gcm_open(key@, iv@, old(in_out)@) == Some(final(in_out)@)
                && final(in_out)@.len() + TAG_BYTES == old(in_out)@.len(),
            Err(()) => aes256gcm_open(key@, iv@, old(in_out)@) is None,
        },
{
    let k = ring::aead::LessSafeKey::new(
        ring::aead::UnboundKey::new(&ring::aead::AES_256_GCM, key.as_slice()).unwrap(),
    );
    let nonce = ring::aead::Nonce::try_assume_unique_for_key(iv.as_slice()).unwrap();
    let n = match k.open_in_place(nonce, ring::aead::Aad::empty(), in_out.as_mut_slice()) {
        Ok(plain) => plain.len(),
        Err(_) => return Err(()),
    };
    in_out.truncate(n);
    Ok(())
}

/// Seals `in_out` in place under AES-256-GCM, appending the 128-bit tag.
///
/// Succeeds exactly when the secret is a 32-byte key and the data is within
/// the algorithm's length limit; then the sealed bytes open back to the
/// plaintext under the same key and nonce.  On failure the data is left
/// untouched.
pub fn encrypt(iv: &Vec<u8>, secret: &Vec<u8>, in_out: &mut Vec<u8>) -> (r: Result<(), CryptoError>)
    requires
        iv@.len() == IV_BYTES,
    ensures
        match r {
            Ok(()) => secret@.len() == KEY_BYTES
                && old(in_out)@.len() <= MAX_SEAL_BYTES
                && final(in_out)@ == aes256gcm_seal(secret@, iv@, old(in_out)@)
                && final(in_out)@.len() == old(in_out)@.len() + TAG_BYTES
                && aes256gcm_open(secret@, iv@, final(in_out)@) == Some(old(in_out)@),
            Err(e) => e == CryptoError::AeadEncryptError
                && (secret@.len() != KEY_BYTES || old(in_out)@.len() > MAX_SEAL_BYTES)
                && final(in_out)@ == old(in_out)@,
        },
{
    if secret.len() != KEY_BYTES {
        return Err(CryptoError::AeadEncryptError);
    }
    if in_out.len() as u64 > MAX_SEAL_BYTES {
        return Err(CryptoError::AeadEncryptError);
    }
    ring_seal(secret, iv, in_out);
    Ok(())
}

/// Opens a sealed buffer in place under AES-256-GCM, dropping the tag.
///
/// Fails with `AeadInvalidKey` exactly when the secret is not a 32-byte
/// key (the data is then untouched), and with `AeadDecryptError` exactly
/// when the tag does not authenticate the data under this key and nonce.
pub fn decrypt(iv: &Vec<u8>, secret: &Vec<u8>, in_out: &mut Vec<u8>) -> (r: Result<(), CryptoError>)
    requires
        iv@.len() == IV_BYTES,
    ensures
        match r {
            Ok(()) => secret@.len() == KEY_BYTES
                && aes256gcm_open(secret@, iv@, old(in_out)@) == Some(final(in_out)@)
                && final(in_out)@.len() + TAG_BYTES == old(in_out)@.len(),
            Err(e) => match e {
                CryptoError::AeadInvalidKey => secret@.len() != KEY_BYTES
                    && final(in_out)@ == old(in_out)@,
                CryptoError::AeadDecryptError => secret@.len() == KEY_BYTES
                    && aes256gcm_open(secret@, iv@, old(in_out)@) is None,
                CryptoError::AeadEncryptError => false,
            },
        },
{
    if secret.len() != KEY_BYTES {
        return Err(CryptoError::AeadInvalidKey);
    }
    match ring_open(secret, iv, in_out) {
        Ok(()) => Ok(()),
        Err(()) => Err(CryptoError::AeadDecryptError),
    }
}

} // verus!
