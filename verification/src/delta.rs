use crate::model::NeededFiles;
use crate::progress::Phased;
use vstd::prelude::*;

pub mod hashes;
pub mod input;
pub mod plan;
pub mod refs;
pub mod rewrite;

pub use hashes::{new_payloads, HashedPaths};
pub use input::{
    check_extension, check_metadata, group_paths, is_group_descriptor, skip_bom,
};
pub use plan::{output_steps, plan_delta, DeltaPlan, OutputContent, OutputStep};
pub use refs::{normalize, referenced_paths};
pub use rewrite::{rewrite_group, rewrite_groups, rewrite_options, rewrite_simple};

verus! {

/// Why no delta was made.
#[derive(Clone, Copy, Debug, PartialEq, Eq, Structural)]
pub enum DeltaError {
    /// The input is a TexTools archive, which is not supported.
    TextoolsNotSupported,
    /// The extension names no known kind of file.
    UnknownFileType,
    /// The input holds no `meta.json`.
    MissingMeta,
    /// A path that an option refers to has no hash.
    InvariantViolated,
    /// There are more steps than a `usize` counts.
    TooManySteps,
}

/// What a delta computation reports while it runs, phase after phase.
#[derive(Clone, Copy, Debug, PartialEq, Eq, Structural)]
pub enum DeltaProgress {
    SettingUp,
    HashingFiles { current: usize, total: usize },
    CalculatingDifference,
    CreatingUpdateFile { current: usize, total: usize },
    Done,
}

impl Phased for DeltaProgress {
    open spec fn phase(&self) -> nat {
        match *self {
            DeltaProgress::SettingUp => 0,
            DeltaProgress::HashingFiles { .. } => 1,
            DeltaProgress::CalculatingDifference => 2,
            DeltaProgress::CreatingUpdateFile { .. } => 3,
            DeltaProgress::Done => 4,
        }
    }

    open spec fn count(&self) -> Option<(usize, usize)> {
        match *self {
            DeltaProgress::SettingUp => None,
            DeltaProgress::HashingFiles { current, total } => Some((current, total)),
            DeltaProgress::CalculatingDifference => None,
            DeltaProgress::CreatingUpdateFile { current, total } => Some((current, total)),
            DeltaProgress::Done => None,
        }
    }

    open spec fn skippable(phase: nat) -> bool {
        false
    }

    fn phase_number(&self) -> (n: u8) {
        match *self {
            DeltaProgress::SettingUp => 0,
            DeltaProgress::HashingFiles { .. } => 1,
            DeltaProgress::CalculatingDifference => 2,
            DeltaProgress::CreatingUpdateFile { .. } => 3,
            DeltaProgress::Done => 4,
        }
    }

    fn counters(&self) -> (c: Option<(usize, usize)>) {
        match *self {
            DeltaProgress::SettingUp => None,
            DeltaProgress::HashingFiles { current, total } => Some((current, total)),
            DeltaProgress::CalculatingDifference => None,
            DeltaProgress::CreatingUpdateFile { current, total } => Some((current, total)),
            DeltaProgress::Done => None,
        }
    }

    fn can_skip(phase: u8) -> (skip: bool) {
        false
    }
}

/// What a delta is made for: the version it leads to, and what the remote
/// side already has.
pub struct DeltaInfo {
    pub version_id: uuid::Uuid,
    pub needed_files: NeededFiles,
}

/// The file references and other settings of one option.
pub struct PenumbraStandardOptionSimple {
    pub version: Option<i32>,
    /// Each game path with the file that stands for it.
    pub files: Vec<(String, String)>,
    pub file_swaps: Vec<(String, String)>,
    pub manipulations: Vec<serde_json::Value>,
}

/// One option of a group that refers to files.
pub struct PenumbraStandardOption {
    pub name: String,
    pub description: Option<String>,
    pub priority: i32,
    pub simple: PenumbraStandardOptionSimple,
}

/// One option of a group that sets attributes and refers to no file.
pub struct PenumbraImcOption {
    pub name: String,
    pub description: Option<String>,
    pub is_disable_sub_mod: Option<bool>,
    pub attribute_mask: Option<i32>,
}

/// The kinds of group: one choice or several among options that refer to
/// files, or a choice of attributes.
#[allow(inconsistent_fields)]
pub enum GroupKind {
    Single { options: Vec<PenumbraStandardOption> },
    Multi { options: Vec<PenumbraStandardOption> },
    Imc {
        identifier: serde_json::Value,
        all_variants: bool,
        default_entry: serde_json::Value,
        options: Vec<PenumbraImcOption>,
    },
}

/// One group of options.
pub struct PenumbraGroup {
    pub version: Option<i32>,
    pub name: String,
    pub description: Option<String>,
    pub priority: i32,
    pub default_settings: u32,
    pub kind: GroupKind,
}

} // verus!
