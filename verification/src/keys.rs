//! Key derivation: entropy in, storage address and working keys out.
//!
//! The storage address is a one-way hash of the entropy; the content key,
//! the filename key and the base nonce seed come from a key-derivation
//! function under distinct domain-separation labels, so that compromise of
//! one derived value reveals nothing of the others.

use vstd::prelude::*;
use sha2::Digest;

verus! {

/// Length in bytes of the root entropy behind a mnemonic.
pub const ENTROPY_LEN: usize = 16;

/// Length in bytes of a storage address (a SHA-256 digest).
pub const ADDRESS_LEN: usize = 32;

/// Length in bytes of a symmetric key.
pub const KEY_LEN: usize = 32;

/// Length in bytes of an AEAD nonce, and of the base nonce seed.
pub const NONCE_LEN: usize = 12;

/// What SHA-256 returns on the given bytes.
pub uninterp spec fn sha256_of(data: Seq<u8>) -> Seq<u8>;

/// What HKDF-SHA256 (with an empty salt) returns for the given input key
/// material, info label and output length.
pub uninterp spec fn hkdf_of(ikm: Seq<u8>, info: Seq<u8>, n: nat) -> Seq<u8>;

/// Relies on sha2::Sha256::digest: a 32-byte digest that depends on the
/// input bytes alone.
#[verifier::external_body]
pub(crate) fn sha256(data: &[u8]) -> (r: Vec<u8>)
    ensures
        r@ == sha256_of(data@),
        r@.len() == 32,
{
    sha2::Sha256::digest(data).to_vec()
}

/// Relies on hkdf::Hkdf::expand over SHA-256: the output key material
/// depends on the input key material, the info label and the length alone.
/// Its source fails only when the requested length exceeds 255 hash blocks
/// (8160 bytes for SHA-256), which the precondition rules out.
#[verifier::external_body]
pub(crate) fn hkdf_expand(ikm: &[u8], info: &[u8], n: usize) -> (r: Vec<u8>)
    requires
        n <= 8160,
    ensures
        r@ == hkdf_of(ikm@, info@, n as nat),
        r@.len() == n,
{
    let hk = hkdf::Hkdf::<sha2::Sha256>::new(None, ikm);
    let mut okm = vec![0u8; n];
    hk.expand(info, &mut okm)
        .expect("a request of at most 8160 bytes is within the HKDF-SHA256 limit");
    okm
}

/// The domain-separation label under which the content key is derived.
pub open spec fn content_label() -> Seq<u8> {
    seq![0x63u8, 0x6fu8, 0x6eu8, 0x74u8, 0x65u8, 0x6eu8, 0x74u8]
}

/// The domain-separation label under which the filename key is derived.
pub open spec fn filename_label() -> Seq<u8> {
    seq![0x66u8, 0x69u8, 0x6cu8, 0x65u8, 0x6eu8, 0x61u8, 0x6du8, 0x65u8]
}

/// The domain-separation label under which the base nonce seed is derived.
pub open spec fn nonce_label() -> Seq<u8> {
    seq![0x6eu8, 0x6fu8, 0x6eu8, 0x63u8, 0x65u8]
}

fn content_label_bytes() -> (v: Vec<u8>)
    ensures
        v@ == content_label(),
{
    let mut v: Vec<u8> = Vec::new();
    v.push(0x63u8); // c
    v.push(0x6fu8); // o
    v.push(0x6eu8); // n
    v.push(0x74u8); // t
    v.push(0x65u8); // e
    v.push(0x6eu8); // n
    v.push(0x74u8); // t
    proof {
        assert(v@ =~= content_label());
    }
    v
}

fn filename_label_bytes() -> (v: Vec<u8>)
    ensures
        v@ == filename_label(),
{
    let mut v: Vec<u8> = Vec::new();
    v.push(0x66u8); // f
    v.push(0x69u8); // i
    v.push(0x6cu8); // l
    v.push(0x65u8); // e
    v.push(0x6eu8); // n
    v.push(0x61u8); // a
    v.push(0x6du8); // m
    v.push(0x65u8); // e
    proof {
        assert(v@ =~= filename_label());
    }
    v
}

fn nonce_label_bytes() -> (v: Vec<u8>)
    ensures
        v@ == nonce_label(),
{
    let mut v: Vec<u8> = Vec::new();
    v.push(0x6eu8); // n
    v.push(0x6fu8); // o
    v.push(0x6eu8); // n
    v.push(0x63u8); // c
    v.push(0x65u8); // e
    proof {
        assert(v@ =~= nonce_label());
    }
    v
}

/// The storage address derived from the given entropy.
pub open spec fn spec_address(entropy: Seq<u8>) -> Seq<u8> {
    sha256_of(entropy)
}

/// The content key derived from the given entropy.
pub open spec fn spec_content_key(entropy: Seq<u8>) -> Seq<u8> {
    hkdf_of(entropy, content_label(), KEY_LEN as nat)
}

/// The filename key derived from the given entropy.
pub open spec fn spec_filename_key(entropy: Seq<u8>) -> Seq<u8> {
    hkdf_of(entropy, filename_label(), KEY_LEN as nat)
}

/// The base nonce seed derived from the given entropy.
pub open spec fn spec_nonce_seed(entropy: Seq<u8>) -> Seq<u8> {
    hkdf_of(entropy, nonce_label(), NONCE_LEN as nat)
}

/// Everything that one entropy value determines: the storage address, the
/// content key, the filename key and the base nonce seed for the stream.
pub struct Keys {
    pub address: Vec<u8>,
    pub content_key: Vec<u8>,
    pub filename_key: Vec<u8>,
    pub nonce_seed: Vec<u8>,
}

impl Keys {
    /// The lengths every well-formed key set has.
    pub open spec fn wf(self) -> bool {
        &&& self.address@.len() == ADDRESS_LEN
        &&& self.content_key@.len() == KEY_LEN
        &&& self.filename_key@.len() == KEY_LEN
        &&& self.nonce_seed@.len() == NONCE_LEN
    }

    /// This key set is exactly the one the given entropy determines.
    pub open spec fn matches(self, entropy: Seq<u8>) -> bool {
        &&& self.address@ == spec_address(entropy)
        &&& self.content_key@ == spec_content_key(entropy)
        &&& self.filename_key@ == spec_filename_key(entropy)
        &&& self.nonce_seed@ == spec_nonce_seed(entropy)
    }
}

/// Expands entropy into the storage address and the three derived secrets.
/// Identical entropy always yields an identical key set.
pub fn derive_keys(entropy: &[u8]) -> (k: Keys)
    requires
        entropy@.len() == ENTROPY_LEN,
    ensures
        k.wf(),
        k.matches(entropy@),
{
    let address = sha256(entropy);
    let content_label_v = content_label_bytes();
    let filename_label_v = filename_label_bytes();
    let nonce_label_v = nonce_label_bytes();
    let content_key = hkdf_expand(entropy, content_label_v.as_slice(), KEY_LEN);
    let filename_key = hkdf_expand(entropy, filename_label_v.as_slice(), KEY_LEN);
    let nonce_seed = hkdf_expand(entropy, nonce_label_v.as_slice(), NONCE_LEN);
    Keys { address, content_key, filename_key, nonce_seed }
}

/// Key derivation is deterministic: two key sets derived from the same
/// entropy agree on the address, both keys and the nonce seed.
pub proof fn lemma_derive_deterministic(entropy: Seq<u8>, k1: Keys, k2: Keys)
    requires
        k1.matches(entropy),
        k2.matches(entropy),
    ensures
        k1.address@ == k2.address@,
        k1.content_key@ == k2.content_key@,
        k1.filename_key@ == k2.filename_key@,
        k1.nonce_seed@ == k2.nonce_seed@,
{
}

} // verus!
