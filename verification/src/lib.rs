//! A distributed compressed-ID allocator.
//!
//! Each participating session generates globally-unique 128-bit identifiers
//! and, subject to a total-order broadcast service, maps them into small dense
//! integers that every session agrees on after finalization.

pub mod id_types;
pub mod session_space;
pub mod normalizer;
pub mod final_space;
pub mod uuid_space;
pub mod compressor;
pub mod persistence;
pub mod laws;
