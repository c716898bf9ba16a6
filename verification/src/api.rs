//! The operations exposed to the route layer: upload, retrieval and
//! deletion, composed from the codec, the key derivation, the filename
//! seal and the streaming cipher. All key material lives only inside one
//! call; nothing here persists or returns a key.

use vstd::prelude::*;
use crate::envelope::{seal_filename, spec_unseal, unseal_filename, MAX_FILENAME_LEN};
use crate::errors::AppError;
use crate::keys::{derive_keys, sha256, spec_address, spec_content_key, spec_filename_key, spec_nonce_seed, ENTROPY_LEN};
use crate::mnemonic::{decode, generate, spec_decode, spec_encode};
use crate::store::BlobMetadata;
use crate::stream::{decrypt_all, encrypt_all, spec_decrypt, spec_encrypt, MAX_STREAM_LEN};

verus! {

/// Derives the storage address from a phrase: the one-way hash of the
/// entropy the phrase encodes. Fails with `InvalidMnemonic`, and only
/// with it, exactly where the phrase is malformed; no key is derived
/// from a malformed phrase.
pub fn mnemonic_to_hash(phrase: &[u8]) -> (r: Result<Vec<u8>, AppError>)
    ensures
        match spec_decode(phrase@) {
            Some(e) => r matches Ok(a) && a@ == spec_address(e),
            None => r == Err::<Vec<u8>, AppError>(AppError::InvalidMnemonic),
        },
{
    match decode(phrase) {
        Ok(entropy) => Ok(sha256(entropy.as_slice())),
        Err(err) => Err(err),
    }
}

/// Recovers the filename from its sealed form under the phrase's
/// filename key. `InvalidMnemonic` where the phrase is malformed;
/// `IntegrityError` where the sealed filename does not verify.
pub fn restore_filename(phrase: &[u8], cipher: &[u8], nonce: &[u8]) -> (r: Result<Vec<u8>, AppError>)
    ensures
        match spec_decode(phrase@) {
            None => r == Err::<Vec<u8>, AppError>(AppError::InvalidMnemonic),
            Some(e) => match spec_unseal(spec_filename_key(e), nonce@, cipher@) {
                Some(f) => r matches Ok(v) && v@ == f,
                None => r == Err::<Vec<u8>, AppError>(AppError::IntegrityError),
            },
        },
{
    match decode(phrase) {
        Ok(entropy) => {
            let keys = derive_keys(entropy.as_slice());
            unseal_filename(keys.filename_key.as_slice(), cipher, nonce)
        },
        Err(err) => Err(err),
    }
}

/// One whole upload: draws fresh entropy, derives the address and keys,
/// seals the filename and encrypts the content. Returns the phrase, the
/// metadata record to persist and the ciphertext to store; the phrase
/// decodes back to entropy under which everything returned checks out,
/// so the matching download recovers filename and content exactly.
/// Fails only where the secure random source is unavailable.
pub fn upload_blob(filename: &[u8], plaintext: &[u8]) -> (r: Result<(Vec<u8>, BlobMetadata, Vec<u8>), AppError>)
    requires
        filename@.len() <= MAX_FILENAME_LEN,
        plaintext@.len() <= MAX_STREAM_LEN,
    ensures
        match r {
            Ok(t) => exists|e: Seq<u8>|
                #![auto]
                {
                    &&& e.len() == ENTROPY_LEN
                    &&& t.0@ == spec_encode(e)
                    &&& spec_decode(t.0@) == Some(e)
                    &&& t.1.storage_address@ == spec_address(e)
                    &&& spec_unseal(spec_filename_key(e), t.1.filename_nonce@, t.1.filename_cipher@)
                        == Some(filename@)
                    &&& t.2@ == spec_encrypt(spec_content_key(e), spec_nonce_seed(e), plaintext@)
                    &&& spec_decrypt(spec_content_key(e), spec_nonce_seed(e), t.2@) == Some(plaintext@)
                },
            Err(err) => err == AppError::StorageIoError,
        },
{
    let (phrase, entropy) = match generate() {
        Some(pe) => pe,
        None => {
            return Err(AppError::StorageIoError);
        },
    };
    let keys = derive_keys(entropy.as_slice());
    let (filename_cipher, filename_nonce) = match seal_filename(keys.filename_key.as_slice(), filename) {
        Some(cn) => cn,
        None => {
            return Err(AppError::StorageIoError);
        },
    };
    let ciphertext = encrypt_all(keys.content_key.as_slice(), keys.nonce_seed.as_slice(), plaintext);
    let meta = BlobMetadata {
        storage_address: keys.address,
        filename_cipher,
        filename_nonce,
    };
    proof {
        let e = entropy@;
        assert(e.len() == ENTROPY_LEN
            && phrase@ == spec_encode(e)
            && spec_decode(phrase@) == Some(e)
            && meta.storage_address@ == spec_address(e)
            && spec_unseal(spec_filename_key(e), meta.filename_nonce@, meta.filename_cipher@)
                == Some(filename@)
            && ciphertext@ == spec_encrypt(spec_content_key(e), spec_nonce_seed(e), plaintext@)
            && spec_decrypt(spec_content_key(e), spec_nonce_seed(e), ciphertext@) == Some(plaintext@));
    }
    Ok((phrase, meta, ciphertext))
}

/// One whole download, given the persisted record and ciphertext:
/// re-derives the keys from the phrase, opens the filename first (the
/// retrieval path's first integrity check) and then the content stream.
pub fn open_blob(phrase: &[u8], metadata: &BlobMetadata, ciphertext: &[u8]) -> (r: Result<(Vec<u8>, Vec<u8>), AppError>)
    ensures
        match spec_decode(phrase@) {
            None => r == Err::<(Vec<u8>, Vec<u8>), AppError>(AppError::InvalidMnemonic),
            Some(e) => match spec_unseal(spec_filename_key(e), metadata.filename_nonce@, metadata.filename_cipher@) {
                None => r == Err::<(Vec<u8>, Vec<u8>), AppError>(AppError::IntegrityError),
                Some(f) => match spec_decrypt(spec_content_key(e), spec_nonce_seed(e), ciphertext@) {
                    None => r == Err::<(Vec<u8>, Vec<u8>), AppError>(AppError::IntegrityError),
                    Some(p) => r matches Ok(v) && v.0@ == f && v.1@ == p,
                },
            },
        },
{
    let entropy = match decode(phrase) {
        Ok(e) => e,
        Err(err) => {
            return Err(err);
        },
    };
    let keys = derive_keys(entropy.as_slice());
    let filename = match unseal_filename(
        keys.filename_key.as_slice(),
        metadata.filename_cipher.as_slice(),
        metadata.filename_nonce.as_slice(),
    ) {
        Ok(f) => f,
        Err(err) => {
            return Err(err);
        },
    };
    match decrypt_all(keys.content_key.as_slice(), keys.nonce_seed.as_slice(), ciphertext) {
        Ok(plaintext) => Ok((filename, plaintext)),
        Err(err) => Err(err),
    }
}

/// The hexadecimal digit of a nibble.
pub open spec fn hex_digit(n: u8) -> u8 {
    if n < 10 {
        (0x30u8 + n) as u8
    } else {
        (0x57u8 + n) as u8
    }
}

/// The lower-case hexadecimal rendering of a byte string, high nibble
/// first: the form a storage address takes in a path.
pub open spec fn spec_hex(b: Seq<u8>) -> Seq<u8> {
    Seq::new(b.len() * 2, |i: int|
        if i % 2 == 0 { hex_digit(b[i / 2] >> 4u8) } else { hex_digit(b[i / 2] & 0x0fu8) })
}

fn hex_digit_exec(n: u8) -> (r: u8)
    requires
        n < 16,
    ensures
        r == hex_digit(n),
{
    if n < 10 {
        0x30u8 + n
    } else {
        0x57u8 + n
    }
}

/// Renders a storage address (or any byte string) as lower-case hex.
pub fn address_to_hex(addr: &[u8]) -> (r: Vec<u8>)
    requires
        addr@.len() * 2 <= usize::MAX,
    ensures
        r@ == spec_hex(addr@),
{
    let mut r: Vec<u8> = Vec::new();
    let mut k: usize = 0;
    while k < addr.len()
        invariant
            k <= addr@.len(),
            addr@.len() * 2 <= usize::MAX,
            r@.len() == 2 * k,
            forall|i: int| 0 <= i < r@.len() ==> r@[i] == spec_hex(addr@)[i],
        decreases addr@.len() - k,
    {
        let b = addr[k];
        proof {
            assert((2 * k as int) / 2 == k as int) by (nonlinear_arith);
            assert((2 * k as int) % 2 == 0) by (nonlinear_arith);
            assert((2 * k as int + 1) / 2 == k as int) by (nonlinear_arith);
            assert((2 * k as int + 1) % 2 == 1) by (nonlinear_arith);
        }
        assert((b >> 4u8) < 16 && (b & 0x0fu8) < 16) by (bit_vector);
        r.push(hex_digit_exec(b >> 4u8));
        r.push(hex_digit_exec(b & 0x0fu8));
        k = k + 1;
    }
    proof {
        assert(r@ =~= spec_hex(addr@));
    }
    r
}

} // verus!
