//! A streaming tar splitter and its parallel unpacker, as a verified
//! library.
//!
//! The writer state machine in [`pack`] consumes a tar entry stream and
//! says which entries, metadata records and file chunks go into which
//! numbered output archive; the step machine in [`unpack`] says how each
//! archive entry is materialized on disk. Both are pure decision machines:
//! the surrounding program performs the returned actions. [`metadata`]
//! pins down the split-metadata record and its JSON serialization,
//! [`digest`] the hashing pass-through sink, and [`laws`] the properties
//! the machines obey.

use vstd::prelude::*;

pub mod bytes;
pub mod digest;
pub mod hex;
pub mod laws;
pub mod metadata;
pub mod num;
pub mod pack;
pub mod unpack;

verus! {

} // verus!
