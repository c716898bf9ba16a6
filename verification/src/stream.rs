//! The streaming cipher engine: chunked authenticated encryption and
//! decryption of arbitrarily large payloads with one chunk of buffering.
//!
//! The plaintext is cut into full chunks of `CHUNK_SIZE` bytes, each sealed
//! on its own; whatever remains (possibly empty) is sealed as the single
//! terminal chunk. The nonce of chunk `i` is the 12-byte base seed with the
//! big-endian chunk index XOR-ed into its last eight bytes; the terminal
//! chunk additionally flips the lowest bit of the fourth seed byte, so a
//! stream truncated at a chunk boundary cannot pass for a complete one,
//! and no nonce is ever reused within a stream. A sealed full chunk is
//! `CT_CHUNK_SIZE` bytes; the terminal chunk is shorter. Decryption
//! verifies each chunk's tag before releasing its bytes and stops at the
//! first failure: nothing from a corrupted chunk onward is ever yielded.

use vstd::prelude::*;
use vstd::slice::slice_subrange;
use vstd::slice::slice_to_vec;
use crate::cipher::{aead_dec_of, aead_enc_of, aead_decrypt, aead_encrypt, TAG_LEN};
use crate::errors::AppError;
use crate::keys::{KEY_LEN, NONCE_LEN};

verus! {

/// Bytes of plaintext in a full chunk.
pub const CHUNK_SIZE: usize = 65536;

/// Bytes of ciphertext a sealed full chunk occupies.
pub const CT_CHUNK_SIZE: usize = CHUNK_SIZE + TAG_LEN;

/// The largest total plaintext length a single stream accepts.
pub const MAX_STREAM_LEN: u64 = 0x1_0000_0000_0000;

/// More chunks than this cannot occur in any stream a machine can hold.
pub const MAX_CHUNK_COUNT: u64 = 0x1_0000_0000_0000;

/// Byte `j` (big-endian, `j < 8`) of a chunk index.
pub open spec fn index_byte(i: u64, j: u64) -> u8 {
    ((i >> (((7 - j) * 8) as u64)) & 0xffu64) as u8
}

/// The nonce of chunk `index`: the base seed, with the index XOR-ed
/// big-endian into bytes 4..12, and bit 0 of byte 3 flipped on the
/// terminal chunk.
pub open spec fn chunk_nonce(seed: Seq<u8>, index: u64, fin: bool) -> Seq<u8> {
    Seq::new(12, |j: int|
        if j < 3 { seed[j] }
        else if j == 3 { if fin { seed[3] ^ 1u8 } else { seed[3] } }
        else { seed[j] ^ index_byte(index, (j - 4) as u64) })
}

proof fn lemma_xor_one_changes(s: u8)
    ensures
        (s ^ 1u8) != s,
{
    assert((s ^ 1u8) != s) by (bit_vector);
}

proof fn lemma_xor_cancels(s: u8, a: u8, b: u8)
    requires
        (s ^ a) == (s ^ b),
    ensures
        a == b,
{
    assert((s ^ a) == (s ^ b) ==> a == b) by (bit_vector);
}

/// No nonce is ever reused within a stream: two chunk nonces under the
/// same seed coincide only for the same chunk index and the same terminal
/// flag.
pub proof fn lemma_chunk_nonce_injective(seed: Seq<u8>, i1: u64, i2: u64, f1: bool, f2: bool)
    requires
        seed.len() == NONCE_LEN,
        chunk_nonce(seed, i1, f1) == chunk_nonce(seed, i2, f2),
    ensures
        i1 == i2,
        f1 == f2,
{
    let n1 = chunk_nonce(seed, i1, f1);
    let n2 = chunk_nonce(seed, i2, f2);
    assert(n1[3] == n2[3]);
    if f1 != f2 {
        lemma_xor_one_changes(seed[3]);
        assert(false);
    }
    assert forall|j: u64| j < 8 implies #[trigger] index_byte(i1, j) == index_byte(i2, j) by {
        assert(n1[4 + j as int] == n2[4 + j as int]);
        lemma_xor_cancels(seed[4 + j as int], index_byte(i1, j), index_byte(i2, j));
    }
    assert(index_byte(i1, 0u64) == index_byte(i2, 0u64));
    assert(index_byte(i1, 1u64) == index_byte(i2, 1u64));
    assert(index_byte(i1, 2u64) == index_byte(i2, 2u64));
    assert(index_byte(i1, 3u64) == index_byte(i2, 3u64));
    assert(index_byte(i1, 4u64) == index_byte(i2, 4u64));
    assert(index_byte(i1, 5u64) == index_byte(i2, 5u64));
    assert(index_byte(i1, 6u64) == index_byte(i2, 6u64));
    assert(index_byte(i1, 7u64) == index_byte(i2, 7u64));
    assert({
        &&& (((i1 >> 56u64) & 0xffu64) as u8) == (((i2 >> 56u64) & 0xffu64) as u8)
        &&& (((i1 >> 48u64) & 0xffu64) as u8) == (((i2 >> 48u64) & 0xffu64) as u8)
        &&& (((i1 >> 40u64) & 0xffu64) as u8) == (((i2 >> 40u64) & 0xffu64) as u8)
        &&& (((i1 >> 32u64) & 0xffu64) as u8) == (((i2 >> 32u64) & 0xffu64) as u8)
        &&& (((i1 >> 24u64) & 0xffu64) as u8) == (((i2 >> 24u64) & 0xffu64) as u8)
        &&& (((i1 >> 16u64) & 0xffu64) as u8) == (((i2 >> 16u64) & 0xffu64) as u8)
        &&& (((i1 >> 8u64) & 0xffu64) as u8) == (((i2 >> 8u64) & 0xffu64) as u8)
        &&& (((i1 >> 0u64) & 0xffu64) as u8) == (((i2 >> 0u64) & 0xffu64) as u8)
    } ==> i1 == i2) by (bit_vector);
}

fn index_byte_exec(i: u64, j: u64) -> (r: u8)
    requires
        j < 8,
    ensures
        r == index_byte(i, j),
{
    let sh: u64 = (7 - j) * 8;
    assert(((i >> sh) & 0xffu64) < 256) by (bit_vector);
    ((i >> sh) & 0xffu64) as u8
}

fn make_nonce(seed: &[u8], index: u64, fin: bool) -> (n: Vec<u8>)
    requires
        seed@.len() == NONCE_LEN,
    ensures
        n@ == chunk_nonce(seed@, index, fin),
        n@.len() == NONCE_LEN,
{
    let mut n: Vec<u8> = Vec::new();
    n.push(seed[0]);
    n.push(seed[1]);
    n.push(seed[2]);
    if fin {
        n.push(seed[3] ^ 1u8);
    } else {
        n.push(seed[3]);
    }
    let mut j: usize = 0;
    while j < 8
        invariant
            seed@.len() == 12,
            j <= 8,
            n@.len() == 4 + j,
            forall|q: int| 0 <= q < n@.len() ==> n@[q] == chunk_nonce(seed@, index, fin)[q],
        decreases 8 - j,
    {
        let b = index_byte_exec(index, j as u64);
        n.push(seed[4 + j] ^ b);
        j = j + 1;
    }
    proof {
        assert(n@ =~= chunk_nonce(seed@, index, fin));
    }
    n
}

/// The concatenated sealed full chunks of `pt`, numbering from chunk `i`;
/// a trailing partial chunk contributes nothing here.
pub open spec fn spec_seal_fulls(key: Seq<u8>, seed: Seq<u8>, pt: Seq<u8>, i: nat) -> Seq<u8>
    decreases pt.len(),
{
    if pt.len() < CHUNK_SIZE {
        Seq::empty()
    } else {
        aead_enc_of(key, chunk_nonce(seed, i as u64, false), pt.take(CHUNK_SIZE as int))
            + spec_seal_fulls(key, seed, pt.skip(CHUNK_SIZE as int), (i + 1) as nat)
    }
}

/// The whole ciphertext stream of `pt`, numbering from chunk `i`: every
/// full chunk sealed in order, then the remainder sealed as the terminal
/// chunk.
pub open spec fn spec_encrypt_from(key: Seq<u8>, seed: Seq<u8>, pt: Seq<u8>, i: nat) -> Seq<u8>
    decreases pt.len(),
{
    if pt.len() < CHUNK_SIZE {
        aead_enc_of(key, chunk_nonce(seed, i as u64, true), pt)
    } else {
        aead_enc_of(key, chunk_nonce(seed, i as u64, false), pt.take(CHUNK_SIZE as int))
            + spec_encrypt_from(key, seed, pt.skip(CHUNK_SIZE as int), (i + 1) as nat)
    }
}

/// What decrypting the stream `ct` from chunk number `i` on yields: the
/// concatenated plaintext where every tag verifies and the stream ends in
/// exactly one terminal chunk, and `None` otherwise.
pub open spec fn spec_decrypt_from(key: Seq<u8>, seed: Seq<u8>, ct: Seq<u8>, i: nat) -> Option<Seq<u8>>
    decreases ct.len(),
{
    if ct.len() < TAG_LEN {
        None
    } else if ct.len() < CT_CHUNK_SIZE {
        aead_dec_of(key, chunk_nonce(seed, i as u64, true), ct)
    } else {
        match aead_dec_of(key, chunk_nonce(seed, i as u64, false), ct.take(CT_CHUNK_SIZE as int)) {
            Some(p) => match spec_decrypt_from(key, seed, ct.skip(CT_CHUNK_SIZE as int), (i + 1) as nat) {
                Some(rest) => Some(p + rest),
                None => None,
            },
            None => None,
        }
    }
}

/// The ciphertext of a complete stream.
pub open spec fn spec_encrypt(key: Seq<u8>, seed: Seq<u8>, pt: Seq<u8>) -> Seq<u8> {
    spec_encrypt_from(key, seed, pt, 0)
}

/// What a complete stream decrypts to.
pub open spec fn spec_decrypt(key: Seq<u8>, seed: Seq<u8>, ct: Seq<u8>) -> Option<Seq<u8>> {
    spec_decrypt_from(key, seed, ct, 0)
}

/// Decrypting `pre + t` succeeds exactly where decrypting the tail `t`
/// from chunk `i` on does, and then yields `pre`'s plaintext first.
pub open spec fn decrypt_tail(key: Seq<u8>, seed: Seq<u8>, pre: Seq<u8>, t: Seq<u8>, i: nat) -> Option<Seq<u8>> {
    match spec_decrypt_from(key, seed, t, i) {
        Some(r) => Some(pre + r),
        None => None,
    }
}

/// Appending one more full chunk to a whole number of sealed full chunks
/// seals it with the next chunk index.
proof fn lemma_seal_fulls_snoc(key: Seq<u8>, seed: Seq<u8>, head: Seq<u8>, c: Seq<u8>, i0: nat, n: nat)
    requires
        head.len() == n * CHUNK_SIZE,
        c.len() == CHUNK_SIZE,
    ensures
        spec_seal_fulls(key, seed, head + c, i0)
            == spec_seal_fulls(key, seed, head, i0)
                + aead_enc_of(key, chunk_nonce(seed, (i0 + n) as u64, false), c),
    decreases n,
{
    if n == 0 {
        assert(head + c =~= c);
        assert((head + c).take(CHUNK_SIZE as int) =~= c);
        assert((head + c).skip(CHUNK_SIZE as int) =~= Seq::<u8>::empty());
        assert(spec_seal_fulls(key, seed, (head + c).skip(CHUNK_SIZE as int), (i0 + 1) as nat)
            == Seq::<u8>::empty());
        assert(aead_enc_of(key, chunk_nonce(seed, i0 as u64, false), c) + Seq::<u8>::empty()
            =~= aead_enc_of(key, chunk_nonce(seed, i0 as u64, false), c));
        assert(spec_seal_fulls(key, seed, head, i0) == Seq::<u8>::empty());
        assert(Seq::<u8>::empty() + aead_enc_of(key, chunk_nonce(seed, (i0 + n) as u64, false), c)
            =~= aead_enc_of(key, chunk_nonce(seed, (i0 + n) as u64, false), c));
    } else {
        assert(head.len() >= CHUNK_SIZE) by (nonlinear_arith)
            requires head.len() == n * CHUNK_SIZE, n >= 1, CHUNK_SIZE == 65536;
        assert((head + c).take(CHUNK_SIZE as int) =~= head.take(CHUNK_SIZE as int));
        assert((head + c).skip(CHUNK_SIZE as int) =~= head.skip(CHUNK_SIZE as int) + c);
        assert(head.skip(CHUNK_SIZE as int).len() == (n - 1) * CHUNK_SIZE) by (nonlinear_arith)
            requires head.len() == n * CHUNK_SIZE, n >= 1, head.skip(CHUNK_SIZE as int).len() == head.len() - CHUNK_SIZE, CHUNK_SIZE == 65536;
        lemma_seal_fulls_snoc(key, seed, head.skip(CHUNK_SIZE as int), c, (i0 + 1) as nat, (n - 1) as nat);
        assert(aead_enc_of(key, chunk_nonce(seed, i0 as u64, false), head.take(CHUNK_SIZE as int))
            + (spec_seal_fulls(key, seed, head.skip(CHUNK_SIZE as int), (i0 + 1) as nat)
                + aead_enc_of(key, chunk_nonce(seed, (i0 + n) as u64, false), c))
            =~= (aead_enc_of(key, chunk_nonce(seed, i0 as u64, false), head.take(CHUNK_SIZE as int))
                + spec_seal_fulls(key, seed, head.skip(CHUNK_SIZE as int), (i0 + 1) as nat))
                + aead_enc_of(key, chunk_nonce(seed, (i0 + n) as u64, false), c));
    }
}

/// A stream of `n` full chunks and a short tail encrypts to the sealed
/// full chunks followed by the tail sealed as the terminal chunk `i0 + n`.
proof fn lemma_encrypt_split(key: Seq<u8>, seed: Seq<u8>, head: Seq<u8>, tail: Seq<u8>, i0: nat, n: nat)
    requires
        head.len() == n * CHUNK_SIZE,
        tail.len() < CHUNK_SIZE,
    ensures
        spec_encrypt_from(key, seed, head + tail, i0)
            == spec_seal_fulls(key, seed, head, i0)
                + aead_enc_of(key, chunk_nonce(seed, (i0 + n) as u64, true), tail),
    decreases n,
{
    if n == 0 {
        assert(head + tail =~= tail);
        assert(spec_seal_fulls(key, seed, head, i0) =~= Seq::<u8>::empty());
        assert(Seq::<u8>::empty() + aead_enc_of(key, chunk_nonce(seed, i0 as u64, true), tail)
            =~= aead_enc_of(key, chunk_nonce(seed, i0 as u64, true), tail));
    } else {
        assert(head.len() >= CHUNK_SIZE) by (nonlinear_arith)
            requires head.len() == n * CHUNK_SIZE, n >= 1, CHUNK_SIZE == 65536;
        assert((head + tail).take(CHUNK_SIZE as int) =~= head.take(CHUNK_SIZE as int));
        assert((head + tail).skip(CHUNK_SIZE as int) =~= head.skip(CHUNK_SIZE as int) + tail);
        assert(head.skip(CHUNK_SIZE as int).len() == (n - 1) * CHUNK_SIZE) by (nonlinear_arith)
            requires head.len() == n * CHUNK_SIZE, n >= 1, head.skip(CHUNK_SIZE as int).len() == head.len() - CHUNK_SIZE, CHUNK_SIZE == 65536;
        lemma_encrypt_split(key, seed, head.skip(CHUNK_SIZE as int), tail, (i0 + 1) as nat, (n - 1) as nat);
        assert(aead_enc_of(key, chunk_nonce(seed, i0 as u64, false), head.take(CHUNK_SIZE as int))
            + (spec_seal_fulls(key, seed, head.skip(CHUNK_SIZE as int), (i0 + 1) as nat)
                + aead_enc_of(key, chunk_nonce(seed, ((i0 + 1) + (n - 1)) as u64, true), tail))
            =~= (aead_enc_of(key, chunk_nonce(seed, i0 as u64, false), head.take(CHUNK_SIZE as int))
                + spec_seal_fulls(key, seed, head.skip(CHUNK_SIZE as int), (i0 + 1) as nat))
                + aead_enc_of(key, chunk_nonce(seed, (i0 + n) as u64, true), tail));
    }
}

/// The encrypting half of the engine: plaintext is pushed in through
/// `update`, which emits ciphertext as full chunks become available, and
/// `finalize` seals the terminal chunk. Memory use stays at one chunk.
pub struct Encryptor {
    /// The content key.
    pub key: Vec<u8>,
    /// The base nonce seed of this stream.
    pub seed: Vec<u8>,
    /// The not yet sealed tail of the plaintext, under one chunk long.
    pub buf: Vec<u8>,
    /// The number of full chunks sealed so far.
    pub index: u64,
    /// All plaintext fed so far.
    pub fed: Ghost<Seq<u8>>,
    /// All ciphertext emitted so far.
    pub emitted: Ghost<Seq<u8>>,
}

impl Encryptor {
    /// The processed prefix of the fed plaintext: everything sealed so far.
    pub open spec fn processed(self) -> Seq<u8> {
        self.fed@.take(self.index as int * CHUNK_SIZE as int)
    }

    /// Everything `wf` says except that the buffer may momentarily hold a
    /// complete chunk.
    pub open spec fn wf_core(self) -> bool {
        &&& self.key@.len() == KEY_LEN
        &&& self.seed@.len() == NONCE_LEN
        &&& self.buf@.len() <= CHUNK_SIZE
        &&& self.fed@.len() == self.index as int * CHUNK_SIZE as int + self.buf@.len()
        &&& self.fed@.len() <= MAX_STREAM_LEN
        &&& self.buf@ == self.fed@.skip(self.index as int * CHUNK_SIZE as int)
        &&& self.emitted@ == spec_seal_fulls(self.key@, self.seed@, self.processed(), 0)
        &&& forall|t: Seq<u8>| #[trigger] spec_decrypt_from(self.key@, self.seed@, self.emitted@ + t, 0)
                == decrypt_tail(self.key@, self.seed@, self.processed(), t, self.index as nat)
    }

    /// The invariant between calls: a well-formed stream state whose
    /// buffer is strictly under one chunk.
    pub open spec fn wf(self) -> bool {
        &&& self.wf_core()
        &&& self.buf@.len() < CHUNK_SIZE
    }

    /// Opens a stream under the given content key and base nonce seed.
    pub fn new(key: &[u8], seed: &[u8]) -> (s: Self)
        requires
            key@.len() == KEY_LEN,
            seed@.len() == NONCE_LEN,
        ensures
            s.wf(),
            s.key@ == key@,
            s.seed@ == seed@,
            s.fed@ == Seq::<u8>::empty(),
            s.emitted@ == Seq::<u8>::empty(),
    {
        let s = Encryptor {
            key: slice_to_vec(key),
            seed: slice_to_vec(seed),
            buf: Vec::new(),
            index: 0,
            fed: Ghost(Seq::empty()),
            emitted: Ghost(Seq::empty()),
        };
        proof {
            assert(s.processed() =~= Seq::<u8>::empty());
            assert(s.buf@ =~= s.fed@.skip(0));
            assert(spec_seal_fulls(s.key@, s.seed@, s.processed(), 0) =~= Seq::<u8>::empty());
            assert forall|t: Seq<u8>| #[trigger] spec_decrypt_from(s.key@, s.seed@, s.emitted@ + t, 0)
                == decrypt_tail(s.key@, s.seed@, s.processed(), t, 0) by {
                assert(s.emitted@ + t =~= t);
                if spec_decrypt_from(s.key@, s.seed@, t, 0) is Some {
                    let r = spec_decrypt_from(s.key@, s.seed@, t, 0)->Some_0;
                    assert(s.processed() + r =~= r);
                }
            }
        }
        s
    }

    /// Seals the buffered full chunk and resets the buffer.
    fn seal_full(&mut self) -> (ct: Vec<u8>)
        requires
            old(self).wf_core(),
            old(self).buf@.len() == CHUNK_SIZE,
        ensures
            final(self).wf(),
            final(self).buf@.len() == 0,
            final(self).key@ == old(self).key@,
            final(self).seed@ == old(self).seed@,
            final(self).fed@ == old(self).fed@,
            final(self).emitted@ == old(self).emitted@ + ct@,
    {
        let ghost k = self.key@;
        let ghost s = self.seed@;
        let ghost i = self.index as nat;
        let ghost fedv = self.fed@;
        let ghost old_emitted = self.emitted@;
        let ghost old_proc = self.processed();
        let nonce = make_nonce(self.seed.as_slice(), self.index, false);
        let ct = aead_encrypt(self.key.as_slice(), nonce.as_slice(), self.buf.as_slice());
        let ghost ctv = ct@;
        let ghost bufv = self.buf@;
        proof {
            // the whole fed plaintext ends exactly at this chunk boundary
            assert(fedv.len() == i * CHUNK_SIZE + CHUNK_SIZE);
            assert(old_proc + bufv =~= fedv);
            assert(fedv.take((i + 1) as int * CHUNK_SIZE as int) =~= fedv);
        }
        self.buf.clear();
        self.emitted = Ghost(self.emitted@ + ctv);
        proof {
            assert((self.index as int + 1) * CHUNK_SIZE as int == self.index as int * CHUNK_SIZE as int + CHUNK_SIZE as int) by (nonlinear_arith);
        }
        self.index = self.index + 1;
        proof {
            assert(self.buf@ =~= self.fed@.skip(self.index as int * CHUNK_SIZE as int));
            assert(self.processed() =~= fedv);
            // the emitted stream is still the sealed full chunks, in order
            assert(old_proc.len() == i * CHUNK_SIZE);
            lemma_seal_fulls_snoc(k, s, old_proc, bufv, 0, i);
            assert(spec_seal_fulls(k, s, self.processed(), 0)
                == spec_seal_fulls(k, s, old_proc, 0) + ctv);
            // the decryption continuation moves one chunk forward
            assert forall|t: Seq<u8>| #[trigger] spec_decrypt_from(k, s, self.emitted@ + t, 0)
                == decrypt_tail(k, s, self.processed(), t, self.index as nat) by {
                let u = ctv + t;
                assert(self.emitted@ + t =~= old_emitted + u);
                assert(spec_decrypt_from(k, s, old_emitted + u, 0)
                    == decrypt_tail(k, s, old_proc, u, i));
                assert(u.len() >= CT_CHUNK_SIZE);
                assert(u.take(CT_CHUNK_SIZE as int) =~= ctv);
                assert(u.skip(CT_CHUNK_SIZE as int) =~= t);
                assert(aead_dec_of(k, chunk_nonce(s, i as u64, false), ctv) == Some(bufv));
                assert(spec_decrypt_from(k, s, u, i)
                    == match spec_decrypt_from(k, s, t, (i + 1) as nat) {
                        Some(rest) => Some(bufv + rest),
                        None => None::<Seq<u8>>,
                    });
                if spec_decrypt_from(k, s, t, (i + 1) as nat) is Some {
                    let rest = spec_decrypt_from(k, s, t, (i + 1) as nat)->Some_0;
                    assert(old_proc + (bufv + rest) =~= self.processed() + rest);
                }
                assert((i + 1) as nat == self.index as nat);
            }
        }
        ct
    }

    /// Feeds more plaintext into the stream. Returns the ciphertext of
    /// every full chunk that became complete, in order; the remainder
    /// stays buffered. The stream's total plaintext is capped by
    /// `MAX_STREAM_LEN`, far beyond any practical payload.
    pub fn update(&mut self, input: &[u8]) -> (out: Vec<u8>)
        requires
            old(self).wf(),
            old(self).fed@.len() + input@.len() <= MAX_STREAM_LEN,
        ensures
            final(self).wf(),
            final(self).key@ == old(self).key@,
            final(self).seed@ == old(self).seed@,
            final(self).fed@ == old(self).fed@ + input@,
            final(self).emitted@ == old(self).emitted@ + out@,
    {
        let mut out: Vec<u8> = Vec::new();
        let mut pos: usize = 0;
        let ghost fed0 = self.fed@;
        let ghost emitted0 = self.emitted@;
        while pos < input.len()
            invariant
                self.wf(),
                self.key@ == old(self).key@,
                self.seed@ == old(self).seed@,
                pos <= input@.len(),
                self.fed@ == fed0 + input@.take(pos as int),
                self.emitted@ == emitted0 + out@,
                fed0.len() + input@.len() <= MAX_STREAM_LEN,
            decreases input@.len() - pos,
        {
            let want: usize = CHUNK_SIZE - self.buf.len();
            let avail: usize = input.len() - pos;
            let n: usize = if want < avail { want } else { avail };
            let mut i: usize = 0;
            while i < n
                invariant
                    self.wf_core(),
                    self.key@ == old(self).key@,
                    self.seed@ == old(self).seed@,
                    i <= n,
                    pos + n <= input@.len(),
                    input@.len() <= usize::MAX,
                    self.buf@.len() + (n - i) <= CHUNK_SIZE,
                    self.fed@ == fed0 + input@.take(pos as int + i),
                    self.fed@.len() <= MAX_STREAM_LEN,
                    self.emitted@ == emitted0 + out@,
                    fed0.len() + input@.len() <= MAX_STREAM_LEN,
                decreases n - i,
            {
                let b = input[pos + i];
                let ghost fed_before = self.fed@;
                let ghost proc_before = self.processed();
                self.buf.push(b);
                self.fed = Ghost(self.fed@.push(b));
                proof {
                    assert(self.fed@ =~= fed0 + input@.take(pos as int + i + 1));
                    assert(self.buf@ =~= self.fed@.skip(self.index as int * CHUNK_SIZE as int));
                    assert(self.processed() =~= proc_before);
                }
                i = i + 1;
            }
            if self.buf.len() == CHUNK_SIZE {
                let mut ct = self.seal_full();
                out.append(&mut ct);
                proof {
                    assert(self.emitted@ =~= emitted0 + out@);
                }
            }
            pos = pos + n;
        }
        proof {
            assert(input@.take(input@.len() as int) =~= input@);
        }
        out
    }

    /// Seals whatever remains in the buffer as the terminal chunk and ends
    /// the stream. Together with everything emitted before, the result is
    /// exactly the stream's ciphertext, and decrypting that ciphertext
    /// yields exactly the plaintext that was fed in: the round trip is
    /// part of this contract.
    pub fn finalize(self) -> (out: Vec<u8>)
        requires
            self.wf(),
        ensures
            self.emitted@ + out@ == spec_encrypt(self.key@, self.seed@, self.fed@),
            spec_decrypt(self.key@, self.seed@, self.emitted@ + out@) == Some(self.fed@),
    {
        let ghost k = self.key@;
        let ghost s = self.seed@;
        let ghost i = self.index as nat;
        let nonce = make_nonce(self.seed.as_slice(), self.index, true);
        let ct = aead_encrypt(self.key.as_slice(), nonce.as_slice(), self.buf.as_slice());
        proof {
            let proc = self.processed();
            let bufv = self.buf@;
            assert(proc + bufv =~= self.fed@);
            assert(proc.len() == i * CHUNK_SIZE);
            lemma_encrypt_split(k, s, proc, bufv, 0, i);
            assert(self.emitted@ + ct@ == spec_encrypt_from(k, s, self.fed@, 0));
            // instantiate the continuation at the terminal chunk
            assert(spec_decrypt_from(k, s, self.emitted@ + ct@, 0)
                == decrypt_tail(k, s, proc, ct@, i));
            assert(ct@.len() >= TAG_LEN && ct@.len() < CT_CHUNK_SIZE);
            assert(spec_decrypt_from(k, s, ct@, i)
                == aead_dec_of(k, chunk_nonce(s, i as u64, true), ct@));
            assert(aead_dec_of(k, chunk_nonce(s, i as u64, true), ct@) == Some(bufv));
            assert(proc + bufv == self.fed@);
        }
        ct
    }
}

/// Encrypts a whole in-memory payload as one stream. The result is the
/// stream ciphertext of `pt`, and decrypting it yields `pt` again.
pub fn encrypt_all(key: &[u8], seed: &[u8], pt: &[u8]) -> (ct: Vec<u8>)
    requires
        key@.len() == KEY_LEN,
        seed@.len() == NONCE_LEN,
        pt@.len() <= MAX_STREAM_LEN,
    ensures
        ct@ == spec_encrypt(key@, seed@, pt@),
        spec_decrypt(key@, seed@, ct@) == Some(pt@),
{
    let mut enc = Encryptor::new(key, seed);
    let mut out = enc.update(pt);
    let mut tail = enc.finalize();
    out.append(&mut tail);
    out
}

/// The decrypting half of the engine: a pull-based sequence fed one
/// ciphertext chunk at a time. Each chunk's tag is verified before its
/// plaintext is released; the first failure poisons the stream, and a
/// poisoned or completed stream accepts no further chunks.
pub struct Decryptor {
    /// The content key.
    pub key: Vec<u8>,
    /// The base nonce seed of this stream.
    pub seed: Vec<u8>,
    /// The number of chunks opened so far.
    pub index: u64,
    /// Whether the terminal chunk has been opened.
    pub done: bool,
    /// Whether a chunk failed verification.
    pub failed: bool,
    /// All ciphertext fed so far.
    pub consumed: Ghost<Seq<u8>>,
    /// All plaintext released so far.
    pub produced: Ghost<Seq<u8>>,
}

impl Decryptor {
    /// The invariant between calls.
    pub open spec fn wf(self) -> bool {
        &&& self.key@.len() == KEY_LEN
        &&& self.seed@.len() == NONCE_LEN
        &&& !self.done && !self.failed ==> forall|t: Seq<u8>|
                #[trigger] spec_decrypt_from(self.key@, self.seed@, self.consumed@ + t, 0)
                    == decrypt_tail(self.key@, self.seed@, self.produced@, t, self.index as nat)
        &&& self.done ==> !self.failed
            && spec_decrypt(self.key@, self.seed@, self.consumed@) == Some(self.produced@)
    }

    /// Opens a decrypting stream under the given content key and base
    /// nonce seed.
    pub fn new(key: &[u8], seed: &[u8]) -> (s: Self)
        requires
            key@.len() == KEY_LEN,
            seed@.len() == NONCE_LEN,
        ensures
            s.wf(),
            s.key@ == key@,
            s.seed@ == seed@,
            s.index == 0,
            !s.done,
            !s.failed,
            s.consumed@ == Seq::<u8>::empty(),
            s.produced@ == Seq::<u8>::empty(),
    {
        let s = Decryptor {
            key: slice_to_vec(key),
            seed: slice_to_vec(seed),
            index: 0,
            done: false,
            failed: false,
            consumed: Ghost(Seq::empty()),
            produced: Ghost(Seq::empty()),
        };
        proof {
            assert forall|t: Seq<u8>| #[trigger] spec_decrypt_from(s.key@, s.seed@, s.consumed@ + t, 0)
                == decrypt_tail(s.key@, s.seed@, s.produced@, t, 0) by {
                assert(s.consumed@ + t =~= t);
                if spec_decrypt_from(s.key@, s.seed@, t, 0) is Some {
                    let r = spec_decrypt_from(s.key@, s.seed@, t, 0)->Some_0;
                    assert(s.produced@ + r =~= r);
                }
            }
        }
        s
    }

    /// Whether the terminal chunk has been opened.
    pub fn is_done(&self) -> (r: bool)
        ensures
            r == self.done,
    {
        self.done
    }

    /// Whether a chunk has failed verification.
    pub fn is_failed(&self) -> (r: bool)
        ensures
            r == self.failed,
    {
        self.failed
    }

    /// Opens the next ciphertext chunk: a full chunk, or the terminal one
    /// (`fin`). Returns its plaintext where the tag verifies under this
    /// stream's key and the chunk's position; fails with `IntegrityError`
    /// otherwise, releases nothing of the corrupted chunk, and accepts no
    /// further chunks.
    pub fn feed(&mut self, ct: &[u8], fin: bool) -> (r: Result<Vec<u8>, AppError>)
        requires
            old(self).wf(),
            !old(self).done,
            !old(self).failed,
            old(self).index < MAX_CHUNK_COUNT,
            fin ==> TAG_LEN <= ct@.len() < CT_CHUNK_SIZE,
            !fin ==> ct@.len() == CT_CHUNK_SIZE,
        ensures
            final(self).wf(),
            final(self).key@ == old(self).key@,
            final(self).seed@ == old(self).seed@,
            match aead_dec_of(old(self).key@, chunk_nonce(old(self).seed@, old(self).index, fin), ct@) {
                Some(p) => {
                    &&& r matches Ok(v) && v@ == p
                    &&& !final(self).failed
                    &&& final(self).done == fin
                    &&& final(self).index == old(self).index + 1
                    &&& final(self).consumed@ == old(self).consumed@ + ct@
                    &&& final(self).produced@ == old(self).produced@ + p
                },
                None => {
                    &&& r == Err::<Vec<u8>, AppError>(AppError::IntegrityError)
                    &&& final(self).failed
                    &&& !final(self).done
                    &&& final(self).produced@ == old(self).produced@
                    &&& final(self).consumed@ == old(self).consumed@
                },
            },
    {
        let ghost k = self.key@;
        let ghost s = self.seed@;
        let ghost i = self.index as nat;
        let ghost consumed0 = self.consumed@;
        let ghost produced0 = self.produced@;
        let nonce = make_nonce(self.seed.as_slice(), self.index, fin);
        match aead_decrypt(self.key.as_slice(), nonce.as_slice(), ct) {
            Some(p) => {
                let ghost pv = p@;
                self.consumed = Ghost(self.consumed@ + ct@);
                self.produced = Ghost(self.produced@ + pv);
                self.index = self.index + 1;
                self.done = fin;
                proof {
                    if fin {
                        assert(spec_decrypt_from(k, s, consumed0 + ct@, 0)
                            == decrypt_tail(k, s, produced0, ct@, i));
                        assert(spec_decrypt_from(k, s, ct@, i)
                            == aead_dec_of(k, chunk_nonce(s, i as u64, true), ct@));
                    } else {
                        assert forall|t: Seq<u8>| #[trigger] spec_decrypt_from(k, s, self.consumed@ + t, 0)
                            == decrypt_tail(k, s, self.produced@, t, self.index as nat) by {
                            let u = ct@ + t;
                            assert(self.consumed@ + t =~= consumed0 + u);
                            assert(spec_decrypt_from(k, s, consumed0 + u, 0)
                                == decrypt_tail(k, s, produced0, u, i));
                            assert(u.len() >= CT_CHUNK_SIZE);
                            assert(u.take(CT_CHUNK_SIZE as int) =~= ct@);
                            assert(u.skip(CT_CHUNK_SIZE as int) =~= t);
                            assert(aead_dec_of(k, chunk_nonce(s, i as u64, false), ct@) == Some(pv));
                            assert(spec_decrypt_from(k, s, u, i)
                                == match spec_decrypt_from(k, s, t, (i + 1) as nat) {
                                    Some(rest) => Some(pv + rest),
                                    None => None::<Seq<u8>>,
                                });
                            if spec_decrypt_from(k, s, t, (i + 1) as nat) is Some {
                                let rest = spec_decrypt_from(k, s, t, (i + 1) as nat)->Some_0;
                                assert(produced0 + (pv + rest) =~= self.produced@ + rest);
                            }
                            assert((i + 1) as nat == self.index as nat);
                        }
                    }
                }
                Ok(p)
            },
            None => {
                self.failed = true;
                Err(AppError::IntegrityError)
            },
        }
    }
}

/// Decrypts a whole in-memory stream: full chunks in order, then the
/// terminal chunk. Succeeds with exactly the stream's plaintext, and
/// fails with `IntegrityError` exactly where the stream does not decrypt:
/// a forged or reordered chunk, a truncated or ill-cut stream.
pub fn decrypt_all(key: &[u8], seed: &[u8], ct: &[u8]) -> (r: Result<Vec<u8>, AppError>)
    requires
        key@.len() == KEY_LEN,
        seed@.len() == NONCE_LEN,
    ensures
        match r {
            Ok(p) => spec_decrypt(key@, seed@, ct@) == Some(p@),
            Err(e) => e == AppError::IntegrityError && spec_decrypt(key@, seed@, ct@) is None,
        },
{
    let mut dec = Decryptor::new(key, seed);
    let mut out: Vec<u8> = Vec::new();
    let mut pos: usize = 0;
    proof {
        assert(ct@.take(0) =~= Seq::<u8>::empty());
    }
    while ct.len() - pos >= CT_CHUNK_SIZE
        invariant
            dec.wf(),
            !dec.done,
            !dec.failed,
            dec.key@ == key@,
            dec.seed@ == seed@,
            key@.len() == KEY_LEN,
            seed@.len() == NONCE_LEN,
            pos <= ct@.len(),
            pos == dec.index as int * CT_CHUNK_SIZE as int,
            dec.consumed@ == ct@.take(pos as int),
            out@ == dec.produced@,
        decreases ct@.len() - pos,
    {
        proof {
            assert(dec.index < MAX_CHUNK_COUNT) by (nonlinear_arith)
                requires
                    dec.index as int * 65552 <= 0xFFFF_FFFF_FFFF_FFFFint,
                    MAX_CHUNK_COUNT == 0x1_0000_0000_0000u64,
            ;
        }
        let ghost dec0 = dec;
        let ghost tail = ct@.skip(pos as int);
        let chunk = slice_subrange(ct, pos, pos + CT_CHUNK_SIZE);
        match dec.feed(chunk, false) {
            Ok(mut p) => {
                out.append(&mut p);
                proof {
                    assert(dec.consumed@ =~= ct@.take(pos as int + CT_CHUNK_SIZE as int));
                    assert((dec0.index as int + 1) * CT_CHUNK_SIZE as int
                        == dec0.index as int * CT_CHUNK_SIZE as int + CT_CHUNK_SIZE as int) by (nonlinear_arith);
                }
                pos = pos + CT_CHUNK_SIZE;
            },
            Err(e) => {
                proof {
                    assert(dec0.consumed@ + tail =~= ct@);
                    assert(spec_decrypt_from(key@, seed@, dec0.consumed@ + tail, 0)
                        == decrypt_tail(key@, seed@, dec0.produced@, tail, dec0.index as nat));
                    assert(tail.len() >= CT_CHUNK_SIZE);
                    assert(tail.take(CT_CHUNK_SIZE as int) =~= chunk@);
                    assert(spec_decrypt_from(key@, seed@, tail, dec0.index as nat) is None);
                }
                return Err(AppError::IntegrityError);
            },
        }
    }
    let rem = ct.len() - pos;
    let ghost dec0 = dec;
    let ghost tail = ct@.skip(pos as int);
    proof {
        assert(dec0.consumed@ + tail =~= ct@);
        assert(spec_decrypt_from(key@, seed@, dec0.consumed@ + tail, 0)
            == decrypt_tail(key@, seed@, dec0.produced@, tail, dec0.index as nat));
    }
    if rem < TAG_LEN {
        proof {
            assert(tail.len() < TAG_LEN);
            assert(spec_decrypt_from(key@, seed@, tail, dec0.index as nat) is None);
        }
        return Err(AppError::IntegrityError);
    }
    proof {
        assert(dec.index < MAX_CHUNK_COUNT) by (nonlinear_arith)
            requires
                dec.index as int * 65552 <= 0xFFFF_FFFF_FFFF_FFFFint,
                MAX_CHUNK_COUNT == 0x1_0000_0000_0000u64,
        ;
    }
    let chunk = slice_subrange(ct, pos, ct.len());
    proof {
        assert(tail =~= chunk@);
    }
    match dec.feed(chunk, true) {
        Ok(mut p) => {
            out.append(&mut p);
            proof {
                assert(dec.consumed@ =~= ct@);
                assert(spec_decrypt_from(key@, seed@, chunk@, dec0.index as nat)
                    == aead_dec_of(key@, chunk_nonce(seed@, dec0.index, true), chunk@));
            }
            Ok(out)
        },
        Err(e) => {
            proof {
                assert(spec_decrypt_from(key@, seed@, tail, dec0.index as nat) is None);
            }
            Err(AppError::IntegrityError)
        },
    }
}

/// How a stored stream of `total` ciphertext bytes is cut: the number of
/// full chunks and the length of the terminal chunk. `None` exactly where
/// no well-formed stream has that length.
pub fn ct_layout(total: u64) -> (r: Option<(u64, u64)>)
    ensures
        match r {
            Some(nf) => nf.0 == total as int / CT_CHUNK_SIZE as int
                && nf.1 == total as int % CT_CHUNK_SIZE as int
                && TAG_LEN <= nf.1 < CT_CHUNK_SIZE
                && total == nf.0 * CT_CHUNK_SIZE + nf.1,
            None => (total as int % CT_CHUNK_SIZE as int) < TAG_LEN,
        },
{
    let n = total / (CT_CHUNK_SIZE as u64);
    let f = total % (CT_CHUNK_SIZE as u64);
    if f >= TAG_LEN as u64 {
        proof {
            assert(total == n * CT_CHUNK_SIZE as u64 + f) by (nonlinear_arith)
                requires
                    n == total as int / 65552,
                    f == total as int % 65552,
                    CT_CHUNK_SIZE == 65552usize,
            ;
        }
        Some((n, f))
    } else {
        None
    }
}

} // verus!
