use crate::address::{
    byte_len, can_take_segment, takes_segment, url_push_segment, url_string, url_text,
    with_segment,
};
use crate::deduplicate::FileInfo;
use crate::model::{GroupOptionGameArchive, NeededFiles};
use crate::progress::Phased;
use vstd::prelude::*;

pub mod dat;
pub mod manifest;
pub mod place;

pub use dat::{dat_file, dat_file_of};
pub use manifest::{Manifest, ManifestMod, ManifestOption, ManifestPage};
pub use place::{build_manifest, place};

verus! {

/// The version of the archive format that is written.
pub const TTMP_VERSION: &'static str = "1.3w";

/// The oldest framework that reads what is written.
pub const MINIMUM_FRAMEWORK_VERSION: &'static str = "1.3.0.0";

/// The category under which every file of a mod is listed.
pub const MOD_CATEGORY: &'static str = "Mod file";

/// What the making of an archive reports while it runs, phase after
/// phase.
#[derive(Clone, Copy, Debug, PartialEq, Eq, Structural)]
pub enum TtmpProgress {
    CreatingManifest,
    DownloadingFiles { current: usize, total: usize },
    ProcessingArchive,
    Done,
}

impl Phased for TtmpProgress {
    open spec fn phase(&self) -> nat {
        match *self {
            TtmpProgress::CreatingManifest => 0,
            TtmpProgress::DownloadingFiles { .. } => 1,
            TtmpProgress::ProcessingArchive => 2,
            TtmpProgress::Done => 3,
        }
    }

    open spec fn count(&self) -> Option<(usize, usize)> {
        match *self {
            TtmpProgress::CreatingManifest => None,
            TtmpProgress::DownloadingFiles { current, total } => Some((current, total)),
            TtmpProgress::ProcessingArchive => None,
            TtmpProgress::Done => None,
        }
    }

    open spec fn skippable(phase: nat) -> bool {
        false
    }

    fn phase_number(&self) -> (n: u8) {
        match *self {
            TtmpProgress::CreatingManifest => 0,
            TtmpProgress::DownloadingFiles { .. } => 1,
            TtmpProgress::ProcessingArchive => 2,
            TtmpProgress::Done => 3,
        }
    }

    fn counters(&self) -> (c: Option<(usize, usize)>) {
        match *self {
            TtmpProgress::CreatingManifest => None,
            TtmpProgress::DownloadingFiles { current, total } => Some((current, total)),
            TtmpProgress::ProcessingArchive => None,
            TtmpProgress::Done => None,
        }
    }

    fn can_skip(phase: u8) -> (skip: bool) {
        false
    }
}

/// Why no archive was made.
#[derive(Clone, Copy, Debug, PartialEq, Eq, Structural)]
pub enum CreateError {
    /// The address under which the payloads are served cannot have a path
    /// added to it.
    CannotBeABase,
    /// The address with the hash added to it may be longer than an address
    /// can be.
    TooLong,
    /// More payloads were fetched than were announced.
    TooManyDownloads,
}

/// Why no manifest was made.
#[derive(Clone, Copy, Debug, PartialEq, Eq, Structural)]
pub enum ManifestError {
    /// A use names a group without an option, or an option without a
    /// group.
    HalfNamed,
    /// A use names a group that the caller did not describe.
    UnknownGroup,
    /// There are more pages than the format can number.
    TooManyPages,
}

/// The address to fetch from, given what came of adding the hash to the
/// base: fails with `CannotBeABase` where nothing came of it.
pub fn fetch_target(pushed: Option<url::Url>) -> (outcome: Result<url::Url, CreateError>)
    ensures
        outcome == match pushed {
            Some(url) => Ok::<url::Url, CreateError>(url),
            None => Err::<url::Url, CreateError>(CreateError::CannotBeABase),
        },
{
    match pushed {
        Some(url) => Ok(url),
        None => Err(CreateError::CannotBeABase),
    }
}

/// The address from which the payload under `hash` is fetched: the base
/// address with the hash as the last segment of its path. Fails with
/// `TooLong` exactly where the base address cannot take a segment of the
/// hash's length, and else with `CannotBeABase` exactly where the base
/// address cannot be a base.
pub fn payload_url(needed: &NeededFiles, hash: &str) -> (outcome: Result<url::Url, CreateError>)
    ensures
        match outcome {
            Ok(url) => {
                &&& takes_segment(byte_len(url_text(needed.base_uri)), byte_len(hash@))
                &&& with_segment(url_text(needed.base_uri), hash@) == Some(url_text(url))
            },
            Err(e) => if !takes_segment(byte_len(url_text(needed.base_uri)), byte_len(hash@)) {
                e == CreateError::TooLong
            } else {
                &&& e == CreateError::CannotBeABase
                &&& with_segment(url_text(needed.base_uri), hash@) is None
            },
        },
{
    let base = url_string(&needed.base_uri);
    if !can_take_segment(base.as_str().as_bytes().len(), hash.as_bytes().len()) {
        return Err(CreateError::TooLong);
    }
    fetch_target(url_push_segment(&needed.base_uri, hash))
}

/// Counts the payloads that are fetched, one after the other.
pub struct Downloads {
    done: usize,
    total: usize,
}

impl Downloads {
    /// How many payloads are fetched.
    pub closed spec fn done(&self) -> usize {
        self.done
    }

    /// How many payloads were announced.
    pub closed spec fn total(&self) -> usize {
        self.total
    }

    /// No more payloads are fetched than were announced.
    pub open spec fn wf(&self) -> bool {
        self.done() <= self.total()
    }

    /// A count of `total` payloads, before the first, with what to report
    /// at that point.
    pub fn new(total: usize) -> (start: (Self, TtmpProgress))
        ensures
            start.0.wf(),
            start.0.done() == 0,
            start.0.total() == total,
            start.1 == (TtmpProgress::DownloadingFiles { current: 0, total }),
    {
        (Downloads { done: 0, total }, TtmpProgress::DownloadingFiles { current: 0, total })
    }

    /// Notes that one more payload is fetched, and says what to report.
    /// Fails with `TooManyDownloads`, and counts nothing, where every
    /// announced payload is fetched already.
    pub fn fetched(&mut self) -> (outcome: Result<TtmpProgress, CreateError>)
        requires
            old(self).wf(),
        ensures
            final(self).wf(),
            final(self).total() == old(self).total(),
            outcome == if old(self).done() < old(self).total() {
                Ok::<TtmpProgress, CreateError>(
                    TtmpProgress::DownloadingFiles {
                        current: (old(self).done() + 1) as usize,
                        total: old(self).total(),
                    },
                )
            } else {
                Err::<TtmpProgress, CreateError>(CreateError::TooManyDownloads)
            },
            final(self).done() == if old(self).done() < old(self).total() {
                old(self).done() + 1
            } else {
                old(self).done() as int
            },
    {
        if self.done < self.total {
            self.done = self.done + 1;
            Ok(TtmpProgress::DownloadingFiles { current: self.done, total: self.total })
        } else {
            Err(CreateError::TooManyDownloads)
        }
    }
}

/// What the encoder is told of one use of a payload.
pub fn file_info(usage: GroupOptionGameArchive) -> (info: FileInfo)
    ensures
        info.group == usage.0,
        info.option == usage.1,
        info.game_path == usage.2,
{
    FileInfo { group: usage.0, option: usage.1, game_path: usage.2 }
}

} // verus!
