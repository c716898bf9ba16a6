use mnemovault::errors::AppError;
use mnemovault::mnemonic::{decode, encode, generate, PHRASE_LEN, WORD_COUNT};

fn sample_entropy() -> Vec<u8> {
    (0u8..16u8).map(|i| i.wrapping_mul(31).wrapping_add(7)).collect()
}

#[test]
fn encode_produces_fixed_length_phrase() {
    let phrase = encode(&sample_entropy());
    assert_eq!(phrase.len(), PHRASE_LEN);
    assert_eq!(phrase.iter().filter(|&&c| c == b' ').count(), WORD_COUNT - 1);
}

#[test]
fn encode_known_words() {
    // byte 0x00 -> "bak", byte 0x11 -> "dan"
    let mut entropy = vec![0u8; 16];
    entropy[1] = 0x11;
    let phrase = encode(&entropy);
    assert_eq!(&phrase[0..3], b"bak");
    assert_eq!(phrase[3], b' ');
    assert_eq!(&phrase[4..7], b"dan");
}

#[test]
fn encode_all_zero_entropy() {
    let phrase = encode(&[0u8; 16]);
    let expected: Vec<u8> = b"bak bak bak bak bak bak bak bak bak bak bak bak bak bak bak bak"
        .to_vec();
    assert_eq!(phrase, expected);
}

#[test]
fn decode_round_trip() {
    let entropy = sample_entropy();
    let phrase = encode(&entropy);
    let back = decode(&phrase).expect("a well-formed phrase decodes");
    assert_eq!(back, entropy);
}

#[test]
fn decode_round_trip_every_byte_value() {
    for start in 0u8..=255u8 {
        let entropy: Vec<u8> = (0u8..16u8).map(|i| start.wrapping_add(i)).collect();
        let phrase = encode(&entropy);
        assert_eq!(decode(&phrase).unwrap(), entropy);
    }
}

#[test]
fn decode_rejects_non_wordlist_token() {
    let mut phrase = encode(&sample_entropy());
    // replace the first word with a token outside the wordlist
    phrase[0] = b'x';
    phrase[1] = b'y';
    phrase[2] = b'x';
    assert_eq!(decode(&phrase), Err(AppError::InvalidMnemonic));
}

#[test]
fn decode_rejects_wrong_word_count() {
    let phrase = encode(&sample_entropy());
    let short = &phrase[0..phrase.len() - 4];
    assert_eq!(decode(short), Err(AppError::InvalidMnemonic));
    let mut long = phrase.clone();
    long.extend_from_slice(b" bak");
    assert_eq!(decode(&long), Err(AppError::InvalidMnemonic));
}

#[test]
fn decode_rejects_bad_separator() {
    let mut phrase = encode(&sample_entropy());
    phrase[3] = b'-';
    assert_eq!(decode(&phrase), Err(AppError::InvalidMnemonic));
}

#[test]
fn decode_rejects_empty_phrase() {
    assert_eq!(decode(b""), Err(AppError::InvalidMnemonic));
}

#[test]
fn generate_round_trips() {
    let (phrase, entropy) = generate().expect("the random source is available");
    assert_eq!(phrase.len(), PHRASE_LEN);
    assert_eq!(entropy.len(), 16);
    assert_eq!(decode(&phrase).unwrap(), entropy);
    assert_eq!(encode(&entropy), phrase);
}

#[test]
fn generate_does_not_repeat_over_many_trials() {
    let mut phrases = std::collections::HashSet::new();
    for _ in 0..10_000 {
        let (phrase, _) = generate().expect("the random source is available");
        assert!(phrases.insert(phrase), "two generated mnemonics collided");
    }
    assert_eq!(phrases.len(), 10_000);
}
