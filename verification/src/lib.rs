//! Disposable mailbox lifecycle and storage engine.
//!
//! The crate provisions disposable email addresses, stores the messages and
//! attachments delivered to them, and decides when an address has expired.
//! The storage engine keeps the relational state (addresses, messages,
//! attachments, per-address metadata) with its invariants: address strings
//! and record tokens are unique, every message belongs to an existing
//! address, every attachment to an existing message, deletes cascade, and
//! metadata writes are upserts. All of that is stated in the contracts and
//! proved.

pub mod config;
pub mod errors;
pub mod find;
pub mod ident;
pub mod laws;
pub mod model;
pub mod policy;
pub mod records;
pub mod service;
pub mod store;
pub mod token;
