//! A bounded, encrypted, per-user cache of chat messages, and the scrambler
//! that splices two users' cached messages at a word they share.
//!
//! Every function of this crate is verified with Verus. The few places where
//! it calls into other crates (the cipher, the digest, the random number
//! generator, the URL parser) are marked as such, and their contracts are
//! believed rather than proved.

pub mod commands;
pub mod config;
pub mod document;
pub mod encryption;
pub mod entry;
pub mod fun;
pub mod message;
pub mod message_id_cache;
pub mod scramblr;
pub mod store;
pub mod text;
pub mod user_message_cache;
