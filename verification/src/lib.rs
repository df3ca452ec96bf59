//! The decisions of an embedding service: a text comes in, an int8 vector goes out.
//!
//! Everything here works on plain values. Files, sockets, signals, the clock and the model's arithmetic are
//! the caller's; what is read from them comes in as arguments, and what is to be done about them goes out as
//! results.

pub mod auth;
pub mod batch;
pub mod charsmap;
pub mod config;
pub mod embed;
pub mod failure;
pub mod http;
pub mod idle;
pub mod json;
pub mod key;
pub mod lru;
pub mod metrics;
pub mod number;
pub mod settings;
pub mod shape;
pub mod shutdown;
pub mod text;
pub mod tokens;
