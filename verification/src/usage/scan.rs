use crate::usage::table::{
    distinct_hashes, has_hash, lemma_recorded_has, lemma_with_path_keeps, recorded, rows,
    with_path, HashEntry, HashTable, Row,
};
use crate::usage::{StorageProgress, UsageError};
use vstd::prelude::*;

verus! {

/// What is to be done with an entry that was offered to a scan.
#[derive(Clone, Copy, Debug, PartialEq, Eq, Structural)]
pub enum ScanAction {
    /// The entry shares its payload with the one before it: its path is
    /// recorded, nothing is to be extracted.
    Skip,
    /// The payload is to be extracted, measured and handed in.
    Extract,
}

/// A scan of an archive's entries in the abstract.
pub ghost struct ScanState {
    /// How many entries were announced.
    pub total: nat,
    /// How many entries were taken so far.
    pub seen: nat,
    /// How many of them had to be extracted.
    pub extracted: nat,
    /// Offset and hash of the entry that was extracted last.
    pub last: Option<(u64, Seq<char>)>,
    /// Offset and path of the entry that waits for its payload.
    pub pending: Option<(u64, Seq<char>)>,
    /// What was recorded.
    pub table: Seq<Row>,
}

/// A scan before the first entry.
pub open spec fn scan_start(total: nat) -> ScanState {
    ScanState {
        total,
        seen: 0,
        extracted: 0,
        last: None,
        pending: None,
        table: Seq::<Row>::empty(),
    }
}

/// What holds of every scan that started empty and went by the rules.
pub open spec fn scan_ok(s: ScanState) -> bool {
    &&& s.seen <= s.total
    &&& s.extracted <= s.seen
    &&& distinct_hashes(s.table)
    &&& s.last matches Some(l) ==> has_hash(s.table, l.1)
}

/// The hash of the entry that was extracted last.
pub open spec fn last_hash(s: ScanState) -> Seq<char> {
    match s.last {
        Some(l) => l.1,
        None => Seq::<char>::empty(),
    }
}

/// The answer to an entry at `offset`: an entry at the offset of the entry
/// extracted last is skipped, any other is to be extracted.
pub open spec fn offer_outcome(s: ScanState, offset: u64) -> Result<ScanAction, UsageError> {
    if s.pending is Some {
        Err(UsageError::PayloadPending)
    } else if s.seen >= s.total {
        Err(UsageError::TooManyEntries)
    } else if s.last matches Some(l) && l.0 == offset {
        Ok(ScanAction::Skip)
    } else {
        Ok(ScanAction::Extract)
    }
}

/// The scan after an entry at `offset` and `path` was offered.
pub open spec fn after_offer(s: ScanState, offset: u64, path: Seq<char>) -> ScanState {
    match offer_outcome(s, offset) {
        Err(_) => s,
        Ok(ScanAction::Skip) => ScanState {
            seen: s.seen + 1,
            table: with_path(s.table, last_hash(s), path),
            ..s
        },
        Ok(ScanAction::Extract) => ScanState {
            seen: s.seen + 1,
            extracted: s.extracted + 1,
            pending: Some((offset, path)),
            ..s
        },
    }
}

/// The answer to a payload: the progress to report, where an entry waited.
pub open spec fn payload_outcome(s: ScanState) -> Result<StorageProgress, UsageError> {
    match s.pending {
        Some(_) => Ok(
            StorageProgress::ExtractingFiles { current: s.seen as usize, total: s.total as usize },
        ),
        None => Err(UsageError::NothingPending),
    }
}

/// The scan after the payload of the waiting entry was handed in.
pub open spec fn after_payload(s: ScanState, hash: Seq<char>, size: nat) -> ScanState {
    match s.pending {
        Some(waiting) => ScanState {
            pending: None,
            last: Some((waiting.0, hash)),
            table: recorded(s.table, hash, size, waiting.1),
            ..s
        },
        None => s,
    }
}

/// Whether a scan can end: every announced entry was taken and none waits.
pub open spec fn finish_outcome(s: ScanState) -> Result<(), UsageError> {
    if s.pending is Some {
        Err(UsageError::PayloadPending)
    } else if s.seen < s.total {
        Err(UsageError::EntriesMissing)
    } else {
        Ok(())
    }
}

/// The text side of an offset with a string.
pub open spec fn marked(entry: Option<(u64, String)>) -> Option<(u64, Seq<char>)> {
    match entry {
        Some(e) => Some((e.0, e.1@)),
        None => None,
    }
}

/// A scan of an archive's entries, taken in the order of their offsets.
/// The caller offers each entry, extracts and measures where it is told to,
/// and hands the measurement in.
pub struct UsageScan {
    total: usize,
    seen: usize,
    extracted: usize,
    last: Option<(u64, String)>,
    pending: Option<(u64, String)>,
    table: HashTable,
}

impl View for UsageScan {
    type V = ScanState;

    closed spec fn view(&self) -> ScanState {
        ScanState {
            total: self.total as nat,
            seen: self.seen as nat,
            extracted: self.extracted as nat,
            last: marked(self.last),
            pending: marked(self.pending),
            table: self.table@,
        }
    }
}

impl UsageScan {
    /// The scan went by the rules so far.
    pub closed spec fn wf(&self) -> bool {
        scan_ok(self@) && self.table.wf()
    }

    /// A well-formed scan has gone by the rules.
    pub proof fn lemma_ok(&self)
        requires
            self.wf(),
        ensures
            scan_ok(self@),
    {
    }

    /// A scan of `total` entries, before the first.
    pub fn new(total: usize) -> (scan: Self)
        ensures
            scan.wf(),
            scan@ == scan_start(total as nat),
    {
        let scan = UsageScan {
            total,
            seen: 0,
            extracted: 0,
            last: None,
            pending: None,
            table: HashTable::new(),
        };
        scan
    }

    /// How many entries had to be extracted so far.
    pub fn extracted(&self) -> (count: usize)
        ensures
            count == self@.extracted,
    {
        self.extracted
    }

    /// Offers the next entry.
    pub fn offer(&mut self, offset: u64, path: String) -> (outcome: Result<ScanAction, UsageError>)
        requires
            old(self).wf(),
        ensures
            final(self).wf(),
            outcome == offer_outcome(old(self)@, offset),
            final(self)@ == after_offer(old(self)@, offset, path@),
    {
        if self.pending.is_some() {
            return Err(UsageError::PayloadPending);
        }
        if self.seen >= self.total {
            return Err(UsageError::TooManyEntries);
        }
        let repeats = match &self.last {
            Some(l) => l.0 == offset,
            None => false,
        };
        self.seen = self.seen + 1;
        if repeats {
            match &self.last {
                Some(l) => {
                    proof {
                        lemma_with_path_keeps(self.table@, l.1@, path@, l.1@);
                        self.table.lemma_distinct();
                    }
                    self.table.add_path(l.1.as_str(), path);
                    proof {
                        self.table.lemma_distinct();
                    }
                },
                None => {},
            }
            Ok(ScanAction::Skip)
        } else {
            self.extracted = self.extracted + 1;
            self.pending = Some((offset, path));
            Ok(ScanAction::Extract)
        }
    }

    /// Hands in the measurement of the entry that waits.
    pub fn payload(&mut self, hash: String, size: usize) -> (outcome: Result<
        StorageProgress,
        UsageError,
    >)
        requires
            old(self).wf(),
        ensures
            final(self).wf(),
            outcome == payload_outcome(old(self)@),
            final(self)@ == after_payload(old(self)@, hash@, size as nat),
    {
        match self.pending.take() {
            Some(waiting) => {
                let (offset, path) = waiting;
                let ghost before = self.table@;
                self.last = Some((offset, hash.clone()));
                self.table.record(hash, size, path);
                proof {
                    lemma_recorded_has(before, hash@, size as nat, path@);
                    self.table.lemma_distinct();
                }
                Ok(StorageProgress::ExtractingFiles { current: self.seen, total: self.total })
            },
            None => Err(UsageError::NothingPending),
        }
    }

    /// Ends the scan and gives up what was recorded.
    pub fn finish(self) -> (outcome: Result<Vec<HashEntry>, UsageError>)
        requires
            self.wf(),
        ensures
            match outcome {
                Ok(table) => finish_outcome(self@) is Ok && rows(table@) == self@.table,
                Err(e) => finish_outcome(self@) == Err::<(), UsageError>(e),
            },
    {
        if self.pending.is_some() {
            Err(UsageError::PayloadPending)
        } else if self.seen < self.total {
            Err(UsageError::EntriesMissing)
        } else {
            Ok(self.table.into_entries())
        }
    }
}

} // verus!
