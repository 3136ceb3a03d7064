//! Classifies chess games streamed from a PGN parser and builds tabular rows
//! for the games that a variant accepts.
//!
//! The crate is the classification core alone: byte-level header and clock
//! parsing, and one incremental state machine per classifier variant
//! (berserk, blitz, time odds).  Reading files, decompression, the PGN
//! grammar itself and CSV serialization are left to the caller, which hands
//! this crate plain byte strings and takes plain rows back.

pub mod berserk;
pub mod blitz;
pub mod bytes;
pub mod files;
pub mod comments;
pub mod headers;
pub mod time_odds;
