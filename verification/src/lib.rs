//! Session resumption and framed-text rendering for a terminal chat client.
//!
//! The library covers the parts of the client that carry real invariants:
//! the bijective mapping between conversation identifiers and their on-disk
//! file names (`ident`), the store listing and interactive selection rules
//! (`store`), the bordered word-wrapped rendering of a message (`render`),
//! and the line-by-line decisions of the interactive session (`session`).
//! Terminal, file-system and network work stays with the surrounding
//! program, which hands plain values in and takes plain values back.

pub mod ident;
pub mod render;
pub mod session;
pub mod store;
pub mod strutil;
