//! Anonymous, credential-less encrypted blob storage core.
//!
//! A caller uploads binary content and receives a human-rememberable secret
//! phrase (a mnemonic); presenting that exact phrase is the only way to
//! retrieve or delete the content. This crate holds the cryptographic core:
//! the mnemonic codec, key derivation, the streaming chunked authenticated
//! cipher, the filename seal, and the metadata record store.

pub mod api;
pub mod cipher;
pub mod envelope;
pub mod errors;
pub mod keys;
pub mod mnemonic;
pub mod rng;
pub mod store;
pub mod stream;
