use mnemovault::api::{address_to_hex, mnemonic_to_hash, open_blob, restore_filename, upload_blob};
use mnemovault::envelope::{seal_filename, unseal_filename};
use mnemovault::errors::AppError;
use mnemovault::keys::derive_keys;
use mnemovault::mnemonic::encode;
use mnemovault::store::{AppState, BlobMetadata, MetadataStore};

#[test]
fn hex_rendering_exact() {
    assert_eq!(address_to_hex(&[0x00, 0xab, 0xff, 0x1c]), b"00abff1c".to_vec());
    assert_eq!(address_to_hex(&[]), Vec::<u8>::new());
}

#[test]
fn mnemonic_to_hash_matches_derive() {
    let entropy: Vec<u8> = (10u8..26u8).collect();
    let phrase = encode(&entropy);
    let address = mnemonic_to_hash(&phrase).unwrap();
    assert_eq!(address, derive_keys(&entropy).address);
}

#[test]
fn mnemonic_to_hash_rejects_malformed_phrase() {
    assert_eq!(mnemonic_to_hash(b"not a phrase"), Err(AppError::InvalidMnemonic));
}

#[test]
fn filename_seal_round_trip() {
    let k = derive_keys(&[3u8; 16]);
    let (cipher, nonce) = seal_filename(&k.filename_key, b"report.pdf").unwrap();
    assert_eq!(
        unseal_filename(&k.filename_key, &cipher, &nonce).unwrap(),
        b"report.pdf".to_vec()
    );
}

#[test]
fn filename_seal_detects_tampering() {
    let k = derive_keys(&[3u8; 16]);
    let (mut cipher, nonce) = seal_filename(&k.filename_key, b"report.pdf").unwrap();
    cipher[0] ^= 1;
    assert_eq!(
        unseal_filename(&k.filename_key, &cipher, &nonce),
        Err(AppError::IntegrityError)
    );
}

#[test]
fn filename_seal_rejects_wrong_key_and_bad_nonce() {
    let k = derive_keys(&[3u8; 16]);
    let other = derive_keys(&[4u8; 16]);
    let (cipher, nonce) = seal_filename(&k.filename_key, b"report.pdf").unwrap();
    assert_eq!(
        unseal_filename(&other.filename_key, &cipher, &nonce),
        Err(AppError::IntegrityError)
    );
    assert_eq!(
        unseal_filename(&k.filename_key, &cipher, &nonce[..6]),
        Err(AppError::IntegrityError)
    );
}

#[test]
fn restore_filename_round_trip() {
    let entropy: Vec<u8> = (20u8..36u8).collect();
    let phrase = encode(&entropy);
    let k = derive_keys(&entropy);
    let (cipher, nonce) = seal_filename(&k.filename_key, b"notes.txt").unwrap();
    assert_eq!(
        restore_filename(&phrase, &cipher, &nonce).unwrap(),
        b"notes.txt".to_vec()
    );
    assert_eq!(
        restore_filename(b"garbage", &cipher, &nonce),
        Err(AppError::InvalidMnemonic)
    );
}

#[test]
fn store_insert_find_delete() {
    let mut db = MetadataStore::new();
    let meta = BlobMetadata {
        storage_address: vec![1u8; 32],
        filename_cipher: vec![2u8; 20],
        filename_nonce: vec![3u8; 12],
    };
    assert_eq!(db.insert(meta.clone()), Ok(()));
    let found = db.find(&[1u8; 32]).unwrap();
    assert_eq!(found.filename_cipher, vec![2u8; 20]);
    assert_eq!(found.filename_nonce, vec![3u8; 12]);
    assert_eq!(db.insert(meta), Err(AppError::Conflict));
    assert_eq!(db.find(&[9u8; 32]), Err(AppError::NotFound));
    assert_eq!(db.delete(&[1u8; 32]), Ok(()));
    assert_eq!(db.find(&[1u8; 32]), Err(AppError::NotFound));
    assert_eq!(db.delete(&[1u8; 32]), Err(AppError::NotFound));
}

#[test]
fn upload_download_delete_scenario() {
    let state = AppState { db: MetadataStore::new() };
    let mut db = state.db;
    let (phrase, meta, ciphertext) =
        upload_blob(b"report.pdf", b"hello world").expect("the random source is available");
    let address = meta.storage_address.clone();
    assert_eq!(db.insert(meta), Ok(()));

    // download: phrase -> address -> record -> filename and content
    let looked_up = mnemonic_to_hash(&phrase).unwrap();
    assert_eq!(looked_up, address);
    let record = db.find(&looked_up).unwrap();
    let (filename, content) = open_blob(&phrase, &record, &ciphertext).unwrap();
    assert_eq!(filename, b"report.pdf".to_vec());
    assert_eq!(content, b"hello world".to_vec());

    // delete, then the same phrase finds nothing
    assert_eq!(db.delete(&looked_up), Ok(()));
    assert_eq!(db.find(&looked_up), Err(AppError::NotFound));
}

#[test]
fn open_blob_fails_closed() {
    let (phrase, meta, ciphertext) =
        upload_blob(b"a.bin", b"payload bytes").expect("the random source is available");
    // tampered metadata fails before any content is considered
    let mut bad_meta = BlobMetadata {
        storage_address: meta.storage_address.clone(),
        filename_cipher: meta.filename_cipher.clone(),
        filename_nonce: meta.filename_nonce.clone(),
    };
    bad_meta.filename_cipher[0] ^= 1;
    assert_eq!(
        open_blob(&phrase, &bad_meta, &ciphertext),
        Err(AppError::IntegrityError)
    );
    // tampered content fails with the same error
    let mut bad_ct = ciphertext.clone();
    let last = bad_ct.len() - 1;
    bad_ct[last] ^= 0x80;
    assert_eq!(open_blob(&phrase, &meta, &bad_ct), Err(AppError::IntegrityError));
    // a malformed phrase never reaches derivation
    assert_eq!(
        open_blob(b"zzz", &meta, &ciphertext),
        Err(AppError::InvalidMnemonic)
    );
    // the untouched pair still opens
    assert!(open_blob(&phrase, &meta, &ciphertext).is_ok());
}

#[test]
fn error_messages_do_not_distinguish_phrase_failures() {
    assert_eq!(
        AppError::InvalidMnemonic.message(),
        AppError::NotFound.message()
    );
    assert_ne!(
        AppError::IntegrityError.message(),
        AppError::NotFound.message()
    );
}
