//! Ransomware-defense core: a content-addressed, deduplicated, versioned
//! backup store together with a sliding-window threat scoring engine.
//!
//! The library holds the logic: chunking, hashing, deduplication,
//! compression, encryption, version management, restore reconstruction and
//! threat scoring, each with a verified contract.  File and network I/O,
//! event delivery and serialization live outside the library and hand it
//! plain values.

pub mod chunks;
pub mod crypto;
pub mod backup;
pub mod object_store;
pub mod storage;
pub mod strutil;
pub mod config;
pub mod detector;
pub mod monitor;
pub mod defense;
pub mod manifest;
pub mod alerts;
