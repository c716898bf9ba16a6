use hkdf::Hkdf;
use mnemovault::errors::AppError;
use mnemovault::keys::derive_keys;
use mnemovault::stream::{ct_layout, decrypt_all, encrypt_all, Decryptor, Encryptor, CHUNK_SIZE, CT_CHUNK_SIZE};
use sha2::{Digest, Sha256};

const TAG: usize = 16;

fn entropy() -> Vec<u8> {
    (1u8..17u8).collect()
}

fn payload(len: usize) -> Vec<u8> {
    (0..len).map(|i| (i as u8).wrapping_mul(31).wrapping_add((i >> 8) as u8)).collect()
}

#[test]
fn derive_is_deterministic() {
    let e = entropy();
    let k1 = derive_keys(&e);
    let k2 = derive_keys(&e);
    assert_eq!(k1.address, k2.address);
    assert_eq!(k1.content_key, k2.content_key);
    assert_eq!(k1.filename_key, k2.filename_key);
    assert_eq!(k1.nonce_seed, k2.nonce_seed);
}

#[test]
fn derive_separates_domains() {
    let k = derive_keys(&entropy());
    assert_ne!(k.content_key, k.filename_key);
    assert_ne!(&k.address, &k.content_key);
    let other = derive_keys(&[9u8; 16]);
    assert_ne!(k.address, other.address);
    assert_ne!(k.content_key, other.content_key);
}

#[test]
fn derive_address_matches_sha256() {
    let e = entropy();
    let k = derive_keys(&e);
    let digest = Sha256::digest(&e);
    assert_eq!(k.address.as_slice(), digest.as_slice());
}

#[test]
fn derive_keys_match_hkdf() {
    let e = entropy();
    let k = derive_keys(&e);
    let hk = Hkdf::<Sha256>::new(None, &e);
    let mut content = [0u8; 32];
    hk.expand(b"content", &mut content).unwrap();
    assert_eq!(k.content_key.as_slice(), &content[..]);
    let mut filename = [0u8; 32];
    hk.expand(b"filename", &mut filename).unwrap();
    assert_eq!(k.filename_key.as_slice(), &filename[..]);
    let mut seed = [0u8; 12];
    hk.expand(b"nonce", &mut seed).unwrap();
    assert_eq!(k.nonce_seed.as_slice(), &seed[..]);
}

#[test]
fn stream_round_trip_boundary_lengths() {
    let k = derive_keys(&entropy());
    for len in [0usize, 1, CHUNK_SIZE - 1, CHUNK_SIZE, CHUNK_SIZE + 1, 3 * CHUNK_SIZE + 7] {
        let pt = payload(len);
        let ct = encrypt_all(&k.content_key, &k.nonce_seed, &pt);
        let n_full = len / CHUNK_SIZE;
        let rem = len % CHUNK_SIZE;
        assert_eq!(ct.len(), n_full * CT_CHUNK_SIZE + rem + TAG, "length {}", len);
        let back = decrypt_all(&k.content_key, &k.nonce_seed, &ct).unwrap();
        assert_eq!(back, pt, "length {}", len);
    }
}

#[test]
fn stream_round_trip_megabytes() {
    let k = derive_keys(&entropy());
    let pt = payload(4 * 1024 * 1024 + 3);
    let ct = encrypt_all(&k.content_key, &k.nonce_seed, &pt);
    let back = decrypt_all(&k.content_key, &k.nonce_seed, &ct).unwrap();
    assert_eq!(back, pt);
}

#[test]
fn stream_incremental_updates_match_one_shot() {
    let k = derive_keys(&entropy());
    let pt = payload(2 * CHUNK_SIZE + 500);
    let one_shot = encrypt_all(&k.content_key, &k.nonce_seed, &pt);
    let mut enc = Encryptor::new(&k.content_key, &k.nonce_seed);
    let mut ct = Vec::new();
    for piece in pt.chunks(10_000) {
        ct.extend_from_slice(&enc.update(piece));
    }
    ct.extend_from_slice(&enc.finalize());
    assert_eq!(ct, one_shot);
}

#[test]
fn bit_flips_anywhere_fail_decryption() {
    let k = derive_keys(&entropy());
    let pt = payload(2 * CHUNK_SIZE + CHUNK_SIZE / 2);
    let ct = encrypt_all(&k.content_key, &k.nonce_seed, &pt);
    let positions = [
        0usize,
        100,
        CT_CHUNK_SIZE - 1,
        CT_CHUNK_SIZE,
        CT_CHUNK_SIZE + CHUNK_SIZE / 2,
        2 * CT_CHUNK_SIZE,
        ct.len() - 1,
    ];
    for &pos in positions.iter() {
        for bit in [0u8, 3, 7] {
            let mut bad = ct.clone();
            bad[pos] ^= 1u8 << bit;
            assert_eq!(
                decrypt_all(&k.content_key, &k.nonce_seed, &bad),
                Err(AppError::IntegrityError),
                "flip at byte {} bit {}",
                pos,
                bit
            );
        }
    }
}

#[test]
fn corrupted_chunk_yields_nothing_from_it_onward() {
    let k = derive_keys(&entropy());
    let pt = payload(2 * CHUNK_SIZE + 10);
    let ct = encrypt_all(&k.content_key, &k.nonce_seed, &pt);
    let mut bad = ct.clone();
    bad[CT_CHUNK_SIZE + 5] ^= 0x40;

    let mut dec = Decryptor::new(&k.content_key, &k.nonce_seed);
    let first = dec.feed(&bad[0..CT_CHUNK_SIZE], false).unwrap();
    assert_eq!(first, &pt[0..CHUNK_SIZE]);
    assert!(!dec.is_failed());
    let second = dec.feed(&bad[CT_CHUNK_SIZE..2 * CT_CHUNK_SIZE], false);
    assert_eq!(second, Err(AppError::IntegrityError));
    assert!(dec.is_failed());
    assert!(!dec.is_done());
}

#[test]
fn truncated_stream_fails() {
    let k = derive_keys(&entropy());
    let pt = payload(CHUNK_SIZE + 40);
    let ct = encrypt_all(&k.content_key, &k.nonce_seed, &pt);
    // drop the final byte
    assert_eq!(
        decrypt_all(&k.content_key, &k.nonce_seed, &ct[..ct.len() - 1]),
        Err(AppError::IntegrityError)
    );
    // cut exactly at the chunk boundary: the full chunk alone is no stream
    assert_eq!(
        decrypt_all(&k.content_key, &k.nonce_seed, &ct[..CT_CHUNK_SIZE]),
        Err(AppError::IntegrityError)
    );
    // the empty stream is malformed as well
    assert_eq!(
        decrypt_all(&k.content_key, &k.nonce_seed, b""),
        Err(AppError::IntegrityError)
    );
}

#[test]
fn reordered_and_duplicated_chunks_fail() {
    let k = derive_keys(&entropy());
    let pt = payload(2 * CHUNK_SIZE + 99);
    let ct = encrypt_all(&k.content_key, &k.nonce_seed, &pt);
    let (a, rest) = ct.split_at(CT_CHUNK_SIZE);
    let (b, tail) = rest.split_at(CT_CHUNK_SIZE);

    let mut swapped = Vec::new();
    swapped.extend_from_slice(b);
    swapped.extend_from_slice(a);
    swapped.extend_from_slice(tail);
    assert_eq!(
        decrypt_all(&k.content_key, &k.nonce_seed, &swapped),
        Err(AppError::IntegrityError)
    );

    let mut duplicated = Vec::new();
    duplicated.extend_from_slice(a);
    duplicated.extend_from_slice(a);
    duplicated.extend_from_slice(tail);
    assert_eq!(
        decrypt_all(&k.content_key, &k.nonce_seed, &duplicated),
        Err(AppError::IntegrityError)
    );
}

#[test]
fn wrong_keys_fail_decryption() {
    let k = derive_keys(&entropy());
    let other = derive_keys(&[7u8; 16]);
    let pt = payload(100);
    let ct = encrypt_all(&k.content_key, &k.nonce_seed, &pt);
    assert_eq!(
        decrypt_all(&other.content_key, &k.nonce_seed, &ct),
        Err(AppError::IntegrityError)
    );
    assert_eq!(
        decrypt_all(&k.content_key, &other.nonce_seed, &ct),
        Err(AppError::IntegrityError)
    );
}

#[test]
fn ct_layout_cuts_streams() {
    assert_eq!(ct_layout(16), Some((0, 16)));
    assert_eq!(ct_layout(CT_CHUNK_SIZE as u64 + 20), Some((1, 20)));
    assert_eq!(
        ct_layout(3 * CT_CHUNK_SIZE as u64 + 65551),
        Some((3, 65551))
    );
    assert_eq!(ct_layout(0), None);
    assert_eq!(ct_layout(10), None);
    assert_eq!(ct_layout(CT_CHUNK_SIZE as u64), None);
    assert_eq!(ct_layout(CT_CHUNK_SIZE as u64 + 15), None);
}
