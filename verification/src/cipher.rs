//! The authenticated cipher, behind trusted wrappers.
//!
//! One call seals or opens a single chunk with ChaCha20-Poly1305: a 32-byte
//! key, a 12-byte nonce, a 16-byte authentication tag appended to the
//! ciphertext. What the primitive computes is named, not restated:
//! `aead_enc_of` and `aead_dec_of` stand for its two directions, and the
//! wrappers state only what the crate's source and documentation show.

use vstd::prelude::*;
use chacha20poly1305::aead::{Aead, KeyInit};

verus! {

/// Byte length of the authentication tag a sealed chunk carries.
pub const TAG_LEN: usize = 16;

/// What ChaCha20-Poly1305 encryption returns for the given key, nonce and
/// plaintext: the ciphertext with its tag appended.
pub uninterp spec fn aead_enc_of(key: Seq<u8>, nonce: Seq<u8>, pt: Seq<u8>) -> Seq<u8>;

/// What ChaCha20-Poly1305 decryption returns for the given key, nonce and
/// ciphertext: the plaintext where the tag verifies, `None` where it does
/// not.
pub uninterp spec fn aead_dec_of(key: Seq<u8>, nonce: Seq<u8>, ct: Seq<u8>) -> Option<Seq<u8>>;

/// Relies on chacha20poly1305's Aead::encrypt: the result is ciphertext
/// plus a 16-byte postfix tag, a function of key, nonce and plaintext
/// alone, and it opens back to the plaintext under the same key and nonce.
/// Its source fails only beyond the 64-byte-block counter limit (far above
/// 2^32 bytes), which the precondition rules out.
#[verifier::external_body]
pub(crate) fn aead_encrypt(key: &[u8], nonce: &[u8], pt: &[u8]) -> (r: Vec<u8>)
    requires
        key@.len() == 32,
        nonce@.len() == 12,
        pt@.len() <= 0x4000_0000,
    ensures
        r@ == aead_enc_of(key@, nonce@, pt@),
        r@.len() == pt@.len() + TAG_LEN,
        aead_dec_of(key@, nonce@, r@) == Some(pt@),
{
    let cipher = chacha20poly1305::ChaCha20Poly1305::new(
        chacha20poly1305::Key::from_slice(key),
    );
    cipher
        .encrypt(chacha20poly1305::Nonce::from_slice(nonce), pt)
        .expect("a chunk of at most 2^30 bytes is within the cipher's limit")
}

/// Relies on chacha20poly1305's Aead::decrypt: deterministic in key, nonce
/// and ciphertext; returns the plaintext, 16 bytes shorter than the
/// ciphertext, exactly where the tag verifies, and fails otherwise.
#[verifier::external_body]
pub(crate) fn aead_decrypt(key: &[u8], nonce: &[u8], ct: &[u8]) -> (r: Option<Vec<u8>>)
    requires
        key@.len() == 32,
        nonce@.len() == 12,
    ensures
        r matches Some(p) ==> aead_dec_of(key@, nonce@, ct@) == Some(p@)
            && p@.len() + TAG_LEN == ct@.len(),
        r is None ==> aead_dec_of(key@, nonce@, ct@) is None,
{
    let cipher = chacha20poly1305::ChaCha20Poly1305::new(
        chacha20poly1305::Key::from_slice(key),
    );
    match cipher.decrypt(chacha20poly1305::Nonce::from_slice(nonce), ct) {
        Ok(pt) => Some(pt),
        Err(_) => None,
    }
}

} // verus!
