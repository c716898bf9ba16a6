//! The mnemonic codec: entropy to phrase and back.
//!
//! The wordlist is fixed and public: 256 pronounceable three-letter words,
//! one per byte value. A word is onset + vowel + coda, where the onset
//! encodes the high nibble (16 consonants), the vowel the next two bits
//! (4 vowels) and the coda the low two bits (4 consonants). A phrase is the
//! 16 words of the entropy bytes joined by single spaces, 63 bytes in all.
//! Encoding is a bijection; decoding a malformed phrase fails with
//! `InvalidMnemonic` and never derives keys. Decoding scans the whole
//! phrase whether or not an early word already failed, so the work done
//! does not depend on which word is invalid.

use vstd::prelude::*;
use crate::errors::AppError;
use crate::keys::ENTROPY_LEN;
use crate::rng::fill_random;

verus! {

/// Number of words in a phrase.
pub const WORD_COUNT: usize = 16;

/// Byte length of a well-formed phrase: 16 words of 3 letters, 15 spaces.
pub const PHRASE_LEN: usize = 63;

/// The onset consonant that encodes a high nibble.
pub open spec fn onset_letter(i: u8) -> u8 {
    if i == 0 { 0x62u8 }  // b
    else if i == 1 { 0x64u8 }  // d
    else if i == 2 { 0x66u8 }  // f
    else if i == 3 { 0x67u8 }  // g
    else if i == 4 { 0x68u8 }  // h
    else if i == 5 { 0x6au8 }  // j
    else if i == 6 { 0x6bu8 }  // k
    else if i == 7 { 0x6cu8 }  // l
    else if i == 8 { 0x6du8 }  // m
    else if i == 9 { 0x6eu8 }  // n
    else if i == 10 { 0x70u8 }  // p
    else if i == 11 { 0x72u8 }  // r
    else if i == 12 { 0x73u8 }  // s
    else if i == 13 { 0x74u8 }  // t
    else if i == 14 { 0x76u8 }  // v
    else { 0x7au8 }  // z
}

/// The vowel that encodes two middle bits.
pub open spec fn vowel_letter(i: u8) -> u8 {
    if i == 0 { 0x61u8 }  // a
    else if i == 1 { 0x65u8 }  // e
    else if i == 2 { 0x69u8 }  // i
    else { 0x6fu8 }  // o
}

/// The coda consonant that encodes the two low bits.
pub open spec fn coda_letter(i: u8) -> u8 {
    if i == 0 { 0x6bu8 }  // k
    else if i == 1 { 0x6eu8 }  // n
    else if i == 2 { 0x73u8 }  // s
    else { 0x74u8 }  // t
}

/// The nibble an onset letter stands for, if it is one.
pub open spec fn onset_index(c: u8) -> Option<u8> {
    if c == 0x62u8 { Some(0u8) }
    else if c == 0x64u8 { Some(1u8) }
    else if c == 0x66u8 { Some(2u8) }
    else if c == 0x67u8 { Some(3u8) }
    else if c == 0x68u8 { Some(4u8) }
    else if c == 0x6au8 { Some(5u8) }
    else if c == 0x6bu8 { Some(6u8) }
    else if c == 0x6cu8 { Some(7u8) }
    else if c == 0x6du8 { Some(8u8) }
    else if c == 0x6eu8 { Some(9u8) }
    else if c == 0x70u8 { Some(10u8) }
    else if c == 0x72u8 { Some(11u8) }
    else if c == 0x73u8 { Some(12u8) }
    else if c == 0x74u8 { Some(13u8) }
    else if c == 0x76u8 { Some(14u8) }
    else if c == 0x7au8 { Some(15u8) }
    else { None }
}

/// The two bits a vowel stands for, if it is one.
pub open spec fn vowel_index(c: u8) -> Option<u8> {
    if c == 0x61u8 { Some(0u8) }
    else if c == 0x65u8 { Some(1u8) }
    else if c == 0x69u8 { Some(2u8) }
    else if c == 0x6fu8 { Some(3u8) }
    else { None }
}

/// The two bits a coda letter stands for, if it is one.
pub open spec fn coda_index(c: u8) -> Option<u8> {
    if c == 0x6bu8 { Some(0u8) }
    else if c == 0x6eu8 { Some(1u8) }
    else if c == 0x73u8 { Some(2u8) }
    else { if c == 0x74u8 { Some(3u8) } else { None } }
}

/// Letter `pos` (0, 1 or 2) of the word for byte `b`.
pub open spec fn phrase_letter(b: u8, pos: int) -> u8 {
    if pos == 0 { onset_letter(b >> 4u8) }
    else if pos == 1 { vowel_letter((b >> 2u8) & 3u8) }
    else { coda_letter(b & 3u8) }
}

/// The phrase that encodes the given entropy: words at offsets of four
/// bytes, a single space after every word but the last.
pub open spec fn spec_encode(e: Seq<u8>) -> Seq<u8> {
    if e.len() == 0 {
        Seq::empty()
    } else {
        Seq::new((e.len() * 4 - 1) as nat, |i: int|
            if i % 4 == 3 { 0x20u8 } else { phrase_letter(e[i / 4], i % 4) })
    }
}

/// The byte a word's three letters stand for, if all three are letters of
/// their alphabets.
pub open spec fn byte_of_word(c0: u8, c1: u8, c2: u8) -> Option<u8> {
    match (onset_index(c0), vowel_index(c1), coda_index(c2)) {
        (Some(i), Some(j), Some(k)) => Some(((i << 4u8) | (j << 2u8) | k) as u8),
        _ => None,
    }
}

/// Decodes words `k .. WORD_COUNT` of a 63-byte phrase.
pub open spec fn spec_decode_from(p: Seq<u8>, k: nat) -> Option<Seq<u8>>
    decreases (if k <= 16 { 16 - k } else { 0 }) via spec_decode_from_decreases
{
    if k >= 16 {
        Some(Seq::empty())
    } else {
        let sep_ok = if k < 15 { p[4 * k as int + 3] == 0x20u8 } else { true };
        match byte_of_word(p[4 * k as int], p[4 * k as int + 1], p[4 * k as int + 2]) {
            Some(b) => if sep_ok {
                match spec_decode_from(p, (k + 1) as nat) {
                    Some(rest) => Some(seq![b] + rest),
                    None => None,
                }
            } else {
                None
            },
            None => None,
        }
    }
}

#[via_fn]
proof fn spec_decode_from_decreases(p: Seq<u8>, k: nat) {
}

/// The entropy a phrase encodes, or `None` where the phrase is malformed:
/// wrong length, a word outside the wordlist, or a bad separator.
pub open spec fn spec_decode(p: Seq<u8>) -> Option<Seq<u8>> {
    if p.len() == PHRASE_LEN {
        spec_decode_from(p, 0)
    } else {
        None
    }
}

fn onset_letter_exec(i: u8) -> (r: u8)
    requires
        i < 16,
    ensures
        r == onset_letter(i),
{
    if i == 0 { 0x62u8 }
    else if i == 1 { 0x64u8 }
    else if i == 2 { 0x66u8 }
    else if i == 3 { 0x67u8 }
    else if i == 4 { 0x68u8 }
    else if i == 5 { 0x6au8 }
    else if i == 6 { 0x6bu8 }
    else if i == 7 { 0x6cu8 }
    else if i == 8 { 0x6du8 }
    else if i == 9 { 0x6eu8 }
    else if i == 10 { 0x70u8 }
    else if i == 11 { 0x72u8 }
    else if i == 12 { 0x73u8 }
    else if i == 13 { 0x74u8 }
    else if i == 14 { 0x76u8 }
    else { 0x7au8 }
}

fn vowel_letter_exec(i: u8) -> (r: u8)
    requires
        i < 4,
    ensures
        r == vowel_letter(i),
{
    if i == 0 { 0x61u8 }
    else if i == 1 { 0x65u8 }
    else if i == 2 { 0x69u8 }
    else { 0x6fu8 }
}

fn coda_letter_exec(i: u8) -> (r: u8)
    requires
        i < 4,
    ensures
        r == coda_letter(i),
{
    if i == 0 { 0x6bu8 }
    else if i == 1 { 0x6eu8 }
    else if i == 2 { 0x73u8 }
    else { 0x74u8 }
}

fn onset_index_exec(c: u8) -> (r: Option<u8>)
    ensures
        r == onset_index(c),
{
    if c == 0x62u8 { Some(0u8) }
    else if c == 0x64u8 { Some(1u8) }
    else if c == 0x66u8 { Some(2u8) }
    else if c == 0x67u8 { Some(3u8) }
    else if c == 0x68u8 { Some(4u8) }
    else if c == 0x6au8 { Some(5u8) }
    else if c == 0x6bu8 { Some(6u8) }
    else if c == 0x6cu8 { Some(7u8) }
    else if c == 0x6du8 { Some(8u8) }
    else if c == 0x6eu8 { Some(9u8) }
    else if c == 0x70u8 { Some(10u8) }
    else if c == 0x72u8 { Some(11u8) }
    else if c == 0x73u8 { Some(12u8) }
    else if c == 0x74u8 { Some(13u8) }
    else if c == 0x76u8 { Some(14u8) }
    else if c == 0x7au8 { Some(15u8) }
    else { None }
}

fn vowel_index_exec(c: u8) -> (r: Option<u8>)
    ensures
        r == vowel_index(c),
{
    if c == 0x61u8 { Some(0u8) }
    else if c == 0x65u8 { Some(1u8) }
    else if c == 0x69u8 { Some(2u8) }
    else if c == 0x6fu8 { Some(3u8) }
    else { None }
}

fn coda_index_exec(c: u8) -> (r: Option<u8>)
    ensures
        r == coda_index(c),
{
    if c == 0x6bu8 { Some(0u8) }
    else if c == 0x6eu8 { Some(1u8) }
    else if c == 0x73u8 { Some(2u8) }
    else if c == 0x74u8 { Some(3u8) }
    else { None }
}

/// Encodes 16 bytes of entropy as a 63-byte phrase of 16 wordlist words.
pub fn encode(entropy: &[u8]) -> (p: Vec<u8>)
    requires
        entropy@.len() == ENTROPY_LEN,
    ensures
        p@ == spec_encode(entropy@),
{
    let mut p: Vec<u8> = Vec::new();
    let mut k: usize = 0;
    while k < 16
        invariant
            entropy@.len() == 16,
            k <= 16,
            p@.len() == (if k < 16 { 4 * k } else { 63int }),
            forall|i: int| 0 <= i < p@.len() ==> p@[i] == spec_encode(entropy@)[i],
        decreases 16 - k,
    {
        let b = entropy[k];
        proof {
            assert((4 * k as int) / 4 == k as int) by (nonlinear_arith);
            assert((4 * k as int + 1) / 4 == k as int) by (nonlinear_arith);
            assert((4 * k as int + 2) / 4 == k as int) by (nonlinear_arith);
            assert((4 * k as int) % 4 == 0) by (nonlinear_arith);
            assert((4 * k as int + 1) % 4 == 1) by (nonlinear_arith);
            assert((4 * k as int + 2) % 4 == 2) by (nonlinear_arith);
            assert((4 * k as int + 3) % 4 == 3) by (nonlinear_arith);
        }
        assert((b >> 4u8) < 16 && ((b >> 2u8) & 3u8) < 4 && (b & 3u8) < 4) by (bit_vector);
        p.push(onset_letter_exec(b >> 4u8));
        p.push(vowel_letter_exec((b >> 2u8) & 3u8));
        p.push(coda_letter_exec(b & 3u8));
        if k < 15 {
            p.push(0x20u8);
        }
        k = k + 1;
    }
    proof {
        assert(p@ =~= spec_encode(entropy@));
    }
    p
}

/// A letter triple recomposes to the byte it was taken from.
proof fn lemma_nibble_recompose(b: u8)
    ensures
        ((b >> 4u8) << 4u8) | (((b >> 2u8) & 3u8) << 2u8) | (b & 3u8) == b,
{
    assert(((b >> 4u8) << 4u8) | (((b >> 2u8) & 3u8) << 2u8) | (b & 3u8) == b) by (bit_vector);
}

/// Round trip of one word: decoding the three letters of byte `b`'s word
/// yields `b` again.
proof fn lemma_word_roundtrip(b: u8)
    ensures
        byte_of_word(phrase_letter(b, 0), phrase_letter(b, 1), phrase_letter(b, 2)) == Some(b),
{
    let hi = b >> 4u8;
    let mid = (b >> 2u8) & 3u8;
    let lo = b & 3u8;
    assert((b >> 4u8) < 16 && ((b >> 2u8) & 3u8) < 4 && (b & 3u8) < 4) by (bit_vector);
    assert(onset_index(onset_letter(hi)) == Some(hi));
    assert(vowel_index(vowel_letter(mid)) == Some(mid));
    assert(coda_index(coda_letter(lo)) == Some(lo));
    lemma_nibble_recompose(b);
}

/// Decoding the encoding of any 16-byte entropy yields that entropy again.
pub proof fn lemma_encode_decode_roundtrip(e: Seq<u8>)
    requires
        e.len() == ENTROPY_LEN,
    ensures
        spec_decode(spec_encode(e)) == Some(e),
{
    lemma_decode_from_encode(e, 0);
    assert(spec_encode(e).len() == PHRASE_LEN);
    assert(e.skip(0) =~= e);
}

/// Decoding the encoded phrase from word `k` on yields the entropy bytes
/// from `k` on.
proof fn lemma_decode_from_encode(e: Seq<u8>, k: nat)
    requires
        e.len() == ENTROPY_LEN,
        k <= 16,
    ensures
        spec_decode_from(spec_encode(e), k) == Some(e.skip(k as int)),
    decreases 16 - k,
{
    let p = spec_encode(e);
    if k >= 16 {
        assert(e.skip(16) =~= Seq::<u8>::empty());
    } else {
        let i0 = 4 * k as int;
        assert((4 * k as int) / 4 == k as int) by (nonlinear_arith);
        assert((4 * k as int + 1) / 4 == k as int) by (nonlinear_arith);
        assert((4 * k as int + 2) / 4 == k as int) by (nonlinear_arith);
        assert((4 * k as int) % 4 == 0) by (nonlinear_arith);
        assert((4 * k as int + 1) % 4 == 1) by (nonlinear_arith);
        assert((4 * k as int + 2) % 4 == 2) by (nonlinear_arith);
        assert((4 * k as int + 3) % 4 == 3) by (nonlinear_arith);
        assert(p[i0] == phrase_letter(e[k as int], 0));
        assert(p[i0 + 1] == phrase_letter(e[k as int], 1));
        assert(p[i0 + 2] == phrase_letter(e[k as int], 2));
        if k < 15 {
            assert(p[i0 + 3] == 0x20u8);
        }
        lemma_word_roundtrip(e[k as int]);
        lemma_decode_from_encode(e, (k + 1) as nat);
        assert(seq![e[k as int]] + e.skip(k as int + 1) =~= e.skip(k as int));
    }
}

/// Decodes a phrase back to its 16 bytes of entropy. Fails with
/// `InvalidMnemonic`, and only with it, exactly where the phrase is
/// malformed. The scan always walks all 16 word positions.
pub fn decode(phrase: &[u8]) -> (r: Result<Vec<u8>, AppError>)
    ensures
        match spec_decode(phrase@) {
            Some(e) => r matches Ok(v) && v@ == e && v@.len() == ENTROPY_LEN,
            None => r == Err::<Vec<u8>, AppError>(AppError::InvalidMnemonic),
        },
{
    if phrase.len() != PHRASE_LEN {
        return Err(AppError::InvalidMnemonic);
    }
    let mut out: Vec<u8> = Vec::new();
    let mut valid: bool = true;
    let mut k: usize = 0;
    while k < 16
        invariant
            phrase@.len() == 63,
            k <= 16,
            out@.len() == k,
            valid ==> spec_decode_from(phrase@, 0) == (match spec_decode_from(phrase@, k as nat) {
                Some(rest) => Some(out@ + rest),
                None => None::<Seq<u8>>,
            }),
            !valid ==> spec_decode_from(phrase@, 0) is None,
        decreases 16 - k,
    {
        let c0 = phrase[4 * k];
        let c1 = phrase[4 * k + 1];
        let c2 = phrase[4 * k + 2];
        let sep_ok = if k < 15 { phrase[4 * k + 3] == 0x20u8 } else { true };
        let i0 = onset_index_exec(c0);
        let i1 = vowel_index_exec(c1);
        let i2 = coda_index_exec(c2);
        let (word_ok, b): (bool, u8) = match (i0, i1, i2) {
            (Some(i), Some(j), Some(l)) => (true, (i << 4u8) | (j << 2u8) | l),
            _ => (false, 0u8),
        };
        proof {
            if valid {
                if word_ok && sep_ok {
                    assert(spec_decode_from(phrase@, k as nat) == (
                        match spec_decode_from(phrase@, (k + 1) as nat) {
                            Some(rest) => Some(seq![b] + rest),
                            None => None::<Seq<u8>>,
                        }));
                    assert(forall|rest: Seq<u8>| out@ + (seq![b] + rest) =~= out@.push(b) + rest);
                } else {
                    assert(spec_decode_from(phrase@, k as nat) is None);
                }
            }
        }
        out.push(b);
        valid = valid && word_ok && sep_ok;
        k = k + 1;
    }
    if valid {
        proof {
            assert(out@ + Seq::<u8>::empty() =~= out@);
        }
        Ok(out)
    } else {
        Err(AppError::InvalidMnemonic)
    }
}

/// Draws fresh entropy from the secure random source and encodes it.
/// Returns `None` only where that source is unavailable, which the design
/// treats as fatal; the phrase otherwise always decodes back to the
/// returned entropy.
pub fn generate() -> (r: Option<(Vec<u8>, Vec<u8>)>)
    ensures
        r matches Some(pe) ==> pe.1@.len() == ENTROPY_LEN && pe.0@ == spec_encode(pe.1@)
            && spec_decode(pe.0@) == Some(pe.1@),
{
    match fill_random(ENTROPY_LEN) {
        Some(entropy) => {
            let phrase = encode(entropy.as_slice());
            proof {
                lemma_encode_decode_roundtrip(entropy@);
            }
            Some((phrase, entropy))
        },
        None => None,
    }
}

} // verus!
