//! The filename seal: single-shot authenticated encryption of the short
//! filename under the filename key, with a fresh random nonce per seal.

use vstd::prelude::*;
use crate::cipher::{aead_dec_of, aead_enc_of, aead_decrypt, aead_encrypt};
use crate::errors::AppError;
use crate::keys::{KEY_LEN, NONCE_LEN};
use crate::rng::fill_random;

verus! {

/// The longest filename a seal accepts.
pub const MAX_FILENAME_LEN: usize = 4096;

/// What unsealing returns: the filename where the nonce has its proper
/// length and the tag verifies, `None` otherwise.
pub open spec fn spec_unseal(key: Seq<u8>, nonce: Seq<u8>, cipher: Seq<u8>) -> Option<Seq<u8>> {
    if nonce.len() == NONCE_LEN {
        aead_dec_of(key, nonce, cipher)
    } else {
        None
    }
}

/// Seals a filename under the filename key with a fresh random nonce.
/// Returns the ciphertext and the nonce; the pair unseals back to the
/// filename under the same key. `None` only where the secure random
/// source is unavailable.
pub fn seal_filename(key: &[u8], filename: &[u8]) -> (r: Option<(Vec<u8>, Vec<u8>)>)
    requires
        key@.len() == KEY_LEN,
        filename@.len() <= MAX_FILENAME_LEN,
    ensures
        r matches Some(cn) ==> cn.1@.len() == NONCE_LEN
            && cn.0@ == aead_enc_of(key@, cn.1@, filename@)
            && spec_unseal(key@, cn.1@, cn.0@) == Some(filename@),
{
    match fill_random(NONCE_LEN) {
        Some(nonce) => {
            let cipher = aead_encrypt(key, nonce.as_slice(), filename);
            Some((cipher, nonce))
        },
        None => None,
    }
}

/// Opens a sealed filename. Fails with `IntegrityError`, and only with
/// it, exactly where the stored nonce or ciphertext does not verify under
/// the key: the first integrity check on the retrieval path.
pub fn unseal_filename(key: &[u8], cipher: &[u8], nonce: &[u8]) -> (r: Result<Vec<u8>, AppError>)
    requires
        key@.len() == KEY_LEN,
    ensures
        match spec_unseal(key@, nonce@, cipher@) {
            Some(f) => r matches Ok(v) && v@ == f,
            None => r == Err::<Vec<u8>, AppError>(AppError::IntegrityError),
        },
{
    if nonce.len() != NONCE_LEN {
        return Err(AppError::IntegrityError);
    }
    match aead_decrypt(key, nonce, cipher) {
        Some(f) => Ok(f),
        None => Err(AppError::IntegrityError),
    }
}

} // verus!
