//! ZPass: the verified core of a local password manager.
//!
//! The vault (master key, entries, tags, categories, templates, settings and
//! OTP entries) is modelled as plain tables in [`db::DbState`]; every command
//! of the application is a function over that state with a contract.
//! Encryption uses AES-256-GCM with a key derived from the master password by
//! Argon2id.

pub mod text;
pub mod hexcodec;
pub mod base64;
pub mod crypto;
pub mod models;
pub mod table;
pub mod db;
pub mod state;
pub mod ids;
pub mod auth;
pub mod tags;
pub mod entries;
pub mod categories;
pub mod templates;
pub mod settings;
pub mod stats;
pub mod otp;
pub mod export;
pub mod qr;
pub mod schema;
