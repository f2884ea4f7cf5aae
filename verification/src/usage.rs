use crate::progress::Phased;
use vstd::prelude::*;

pub mod cache;
pub mod laws;
pub mod meter;
pub mod report;
pub mod scan;
pub mod table;

pub use cache::Cache;
pub use meter::{measured, Measured, PayloadMeter};
pub use report::{calculate, copy_texts, known_set, Calculated, CalculatedUsage};
pub use scan::{ScanAction, UsageScan};
pub use table::{rows, HashEntry, HashTable, Row};

verus! {

/// The level at which payloads are compressed to find their stored size.
pub const STORAGE_LEVEL: i32 = 9;

/// Why a usage computation gave no result.
#[derive(Clone, Copy, Debug, PartialEq, Eq, Structural)]
pub enum UsageError {
    /// The compressor reported an error.
    Compression,
    /// The new bytes add up to more than a `usize` holds.
    TotalTooLarge,
    /// An entry was offered while the one before it still waits for its
    /// payload.
    PayloadPending,
    /// A payload was handed in though no entry waits for one.
    NothingPending,
    /// More entries were offered than were announced.
    TooManyEntries,
    /// Fewer entries were offered than were announced.
    EntriesMissing,
}

/// What a usage computation reports while it runs, phase after phase.
/// The files are extracted only where the archive is not in the cache.
#[derive(Clone, Copy, Debug, PartialEq, Eq, Structural)]
pub enum StorageProgress {
    HashingTtmp,
    ExtractingFiles { current: usize, total: usize },
    CalculatingSize,
    Done,
}

impl Phased for StorageProgress {
    open spec fn phase(&self) -> nat {
        match *self {
            StorageProgress::HashingTtmp => 0,
            StorageProgress::ExtractingFiles { .. } => 1,
            StorageProgress::CalculatingSize => 2,
            StorageProgress::Done => 3,
        }
    }

    open spec fn count(&self) -> Option<(usize, usize)> {
        match *self {
            StorageProgress::HashingTtmp => None,
            StorageProgress::ExtractingFiles { current, total } => Some((current, total)),
            StorageProgress::CalculatingSize => None,
            StorageProgress::Done => None,
        }
    }

    open spec fn skippable(phase: nat) -> bool {
        phase == 1
    }

    fn phase_number(&self) -> (n: u8) {
        match *self {
            StorageProgress::HashingTtmp => 0,
            StorageProgress::ExtractingFiles { .. } => 1,
            StorageProgress::CalculatingSize => 2,
            StorageProgress::Done => 3,
        }
    }

    fn counters(&self) -> (c: Option<(usize, usize)>) {
        match *self {
            StorageProgress::HashingTtmp => None,
            StorageProgress::ExtractingFiles { current, total } => Some((current, total)),
            StorageProgress::CalculatingSize => None,
            StorageProgress::Done => None,
        }
    }

    fn can_skip(phase: u8) -> (skip: bool) {
        phase == 1
    }
}

/// What is kept of one archive: its name, its size and its payloads.
pub struct UsageInfo {
    pub file_name: String,
    pub ttmp_size: usize,
    pub hashes: Vec<HashEntry>,
}

/// What is kept of one archive in the abstract.
pub ghost struct Record {
    pub file_name: Seq<char>,
    pub ttmp_size: nat,
    pub table: Seq<Row>,
}

impl View for UsageInfo {
    type V = Record;

    open spec fn view(&self) -> Record {
        Record {
            file_name: self.file_name@,
            ttmp_size: self.ttmp_size as nat,
            table: rows(self.hashes@),
        }
    }
}

} // verus!
