//! A local, single-user encrypted credential vault.
//!
//! A vault is a named collection of service/username/password records,
//! persisted as one encrypted file and accessed through a stateful session
//! with a sliding expiry window. Key derivation is Argon2id, sealing is
//! AES-GCM-SIV, and the persisted fields are base64 text.

pub mod codec;
pub mod commands;
pub mod crypto;
pub mod entry;
pub mod error;
pub mod help;
pub mod parser;
pub mod passwords;
pub mod secret;
pub mod service;
pub mod session;
pub mod store;
pub mod text;
pub mod validation;
pub mod vectors;
pub mod vault_file;
