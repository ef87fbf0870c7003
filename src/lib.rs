//! Unsealing of identity-based sealed containers.
//!
//! A container is a header (marker, format version, length-prefixed
//! metadata listing each recipient's policy) followed by a stream of
//! independently authenticated chunks. The library parses the header,
//! lets the caller choose a recipient, derives the message key from a user
//! secret key by CGWKV decapsulation, and decrypts the chunks with
//! AES-256-GCM, returning plaintext only when the whole stream verified.

pub mod error;
pub mod wire;
pub mod container;
pub mod registry;
pub mod resolver;
pub mod stream;
pub mod session;
pub mod upload;
pub mod routes;
pub mod addresses;
