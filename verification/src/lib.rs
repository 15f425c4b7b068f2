//! An end-to-end encrypted, replicated journal: the data plane of a
//! local-first personal cloud.
//!
//! A cloud is a 32-byte secret. From it follow a signing key pair, whose
//! encoded verifying key hashes to the cloud's identifier, and one symmetric
//! key per mutation. Local transactions are chained by content hash in a
//! [`journal::Journal`]; each one travels to an untrusted relay as a signed,
//! encrypted [`mutation::Mutation`].
//!
//! The modules, leaves first:
//!
//! - [`codec`] and [`text`]: the byte layout of everything that is stored or
//!   sent, and small decisions about text.
//! - [`crypto`]: the calls into the hashing, signing and cipher crates, each
//!   with the contract that is taken on trust.
//! - [`transaction`], [`mutation`], [`metadata`], [`wire`]: the records and
//!   their wire forms.
//! - [`journal`]: the hash-chained log and the store it replays to.
//! - [`cloud`]: secret, identity and journal of one cloud; sealing and
//!   opening mutations; forking.
//! - [`sync`]: the engine that reconciles one cloud with its relay, one
//!   request at a time.
//! - [`relay`]: the relay's store and what it answers.
//! - [`registry`]: the clouds of one device.
//! - [`widgets`]: the state of an editable label.
//!
//! Nothing here touches the network or the disk. Whoever runs the library
//! makes the requests that the engine names, serves the answers that the
//! relay gives, and keeps journals and cursors on disk.

pub mod cloud;
pub mod codec;
pub mod crypto;
pub mod journal;
pub mod metadata;
pub mod mutation;
pub mod registry;
pub mod relay;
pub mod sync;
pub mod text;
pub mod transaction;
pub mod widgets;
pub mod wire;
