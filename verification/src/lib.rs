//! Core logic of a MeshCore node firmware for ESP32 boards, with its
//! contracts proved by Verus.
//!
//! - `command`, `protocol`, `framing`: the companion app's requests, the
//!   node's responses and their framing on a byte stream.
//! - `directory`, `filedb`: keys, directory records and record caches of the
//!   flash stores.
//! - `contacts`, `channels`, `key_cache`, `config`: the node's contacts,
//!   channels, shared secrets and settings.
//! - `hash_log`, `messages`, `mesh`: de-duplication of packets and messages,
//!   the messages kept for the app, and what becomes of a received packet.
//! - `timing`, `crypto`, `signing`: retries, radio back-off, clock setting,
//!   block padding and the app's streaming signature.
//! - `bots`, `ttc`: the text commands the bots answer.
//! - `wire`, `bytes`, `lex`: byte encodings, byte strings and their order.
pub mod wire;
pub mod bytes;
pub mod command;
pub mod protocol;
pub mod framing;
pub mod directory;
pub mod hash_log;
pub mod lex;
pub mod contacts;
pub mod channels;
pub mod messages;
pub mod timing;
pub mod filedb;
pub mod mesh;
pub mod config;
pub mod bots;
pub mod ttc;
pub mod signing;
pub mod key_cache;
pub mod crypto;
