//! Deduplication and delta planning for mod archives: what an archive costs
//! to store beside payloads that are already held, how an archive is
//! rewritten so that each payload is stored once, and which payloads a
//! remote side lacks to follow a mod to its next version.
//!
//! Reading and writing archives, fetching payloads and reporting progress
//! are left to the caller; the types here take entries, bytes and
//! descriptors as plain values and say what is to be done with them.

pub mod address;
pub mod compress;
pub mod converters;
pub mod create_ttmp;
pub mod deduplicate;
pub mod delta;
pub mod digest;
pub mod keyed;
pub mod model;
pub mod multi_writer;
pub mod offsets;
pub mod progress;
pub mod text;
pub mod text_set;
pub mod usage;
