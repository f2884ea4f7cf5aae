use crate::offsets::{repeat_count, repeats};
use crate::progress::Phased;
use crate::text::{joined, str_ends_with};
use vstd::prelude::*;

verus! {

/// Why a deduplication went wrong.
#[derive(Clone, Copy, Debug, PartialEq, Eq, Structural)]
pub enum DedupError {
    /// An entry was offered while the one before it still waits for the
    /// hash of its payload.
    PayloadPending,
    /// A hash was handed in though no entry waits for one.
    NothingPending,
    /// More entries were offered than were announced.
    TooManyEntries,
    /// Fewer entries were offered than were announced.
    EntriesMissing,
}

/// What a deduplication reports while it runs, phase after phase.
#[derive(Clone, Copy, Debug, PartialEq, Eq, Structural)]
pub enum DeduplicateProgress {
    SettingUp,
    ProcessingFiles { current: usize, total: usize },
    CreatingArchive,
    Done,
}

impl Phased for DeduplicateProgress {
    open spec fn phase(&self) -> nat {
        match *self {
            DeduplicateProgress::SettingUp => 0,
            DeduplicateProgress::ProcessingFiles { .. } => 1,
            DeduplicateProgress::CreatingArchive => 2,
            DeduplicateProgress::Done => 3,
        }
    }

    open spec fn count(&self) -> Option<(usize, usize)> {
        match *self {
            DeduplicateProgress::SettingUp => None,
            DeduplicateProgress::ProcessingFiles { current, total } => Some((current, total)),
            DeduplicateProgress::CreatingArchive => None,
            DeduplicateProgress::Done => None,
        }
    }

    open spec fn skippable(phase: nat) -> bool {
        false
    }

    fn phase_number(&self) -> (n: u8) {
        match *self {
            DeduplicateProgress::SettingUp => 0,
            DeduplicateProgress::ProcessingFiles { .. } => 1,
            DeduplicateProgress::CreatingArchive => 2,
            DeduplicateProgress::Done => 3,
        }
    }

    fn counters(&self) -> (c: Option<(usize, usize)>) {
        match *self {
            DeduplicateProgress::SettingUp => None,
            DeduplicateProgress::ProcessingFiles { current, total } => Some((current, total)),
            DeduplicateProgress::CreatingArchive => None,
            DeduplicateProgress::Done => None,
        }
    }

    fn can_skip(phase: u8) -> (skip: bool) {
        false
    }
}

/// The three ways in which the encoder takes a file.
#[derive(Clone, Copy, Debug, PartialEq, Eq, Structural)]
pub enum FileKind {
    Model,
    Texture,
    Standard,
}

/// Where a payload belongs: the group and the option, if any, and the path
/// in the game.
#[derive(Debug, PartialEq, Eq)]
pub struct FileInfo {
    pub group: Option<String>,
    pub option: Option<String>,
    pub game_path: String,
}

/// The kind of a file by the end of its path: `.mdl` is a model, `.tex`
/// and `.atex` are textures, all else is standard.
pub open spec fn kind_of(path: Seq<char>) -> FileKind {
    if ".mdl"@.is_suffix_of(path) {
        FileKind::Model
    } else if ".tex"@.is_suffix_of(path) || ".atex"@.is_suffix_of(path) {
        FileKind::Texture
    } else {
        FileKind::Standard
    }
}

/// Tells by its path in which way the encoder is to take a file.
pub fn classify(game_path: &str) -> (kind: FileKind)
    ensures
        kind == kind_of(game_path@),
{
    if str_ends_with(game_path, ".mdl") {
        FileKind::Model
    } else if str_ends_with(game_path, ".tex") || str_ends_with(game_path, ".atex") {
        FileKind::Texture
    } else {
        FileKind::Standard
    }
}

/// The number of workers to ask the encoder for: none in particular where
/// the caller gives zero.
pub fn worker_count(threads: usize) -> (workers: Option<usize>)
    ensures
        workers == if threads == 0 {
            None::<usize>
        } else {
            Some(threads)
        },
{
    if threads == 0 {
        None
    } else {
        Some(threads)
    }
}

/// The extension of the rewritten archive: that of the source, `ttmp2`
/// where it has none, behind `deduplicated.`.
pub open spec fn deduplicated(extension: Option<Seq<char>>) -> Seq<char> {
    match extension {
        Some(ext) => "deduplicated."@ + ext,
        None => "deduplicated."@ + "ttmp2"@,
    }
}

/// Names the extension of the rewritten archive.
pub fn deduplicated_extension(extension: Option<&str>) -> (out: String)
    ensures
        out@ == deduplicated(
            match extension {
                Some(ext) => Some(ext@),
                None => None,
            },
        ),
{
    match extension {
        Some(ext) => joined("deduplicated.", ext),
        None => joined("deduplicated.", "ttmp2"),
    }
}

/// What is to be done with an entry that was offered.
#[derive(Debug, PartialEq, Eq)]
pub enum DedupAction {
    /// The entry shares its payload with the one before it: the encoder
    /// gets one more reference to the payload under `hash`.
    AddReference { hash: Vec<u8>, info: FileInfo },
    /// The payload is to be extracted and handed to the encoder in the way
    /// of `kind`; the hash that the encoder gives is to be handed in.
    Extract { info: FileInfo, kind: FileKind },
}

/// What an action stands for.
pub ghost enum ActionText {
    AddReference { hash: Seq<u8>, info: FileInfo },
    Extract { info: FileInfo, kind: FileKind },
}

/// What an action stands for.
pub open spec fn action_text(action: DedupAction) -> ActionText {
    match action {
        DedupAction::AddReference { hash, info } => ActionText::AddReference { hash: hash@, info },
        DedupAction::Extract { info, kind } => ActionText::Extract { info, kind },
    }
}

/// A deduplication in the abstract.
pub ghost struct DedupState {
    /// How many entries were announced.
    pub total: nat,
    /// How many entries were taken so far.
    pub seen: nat,
    /// How many of them had to be extracted.
    pub extracted: nat,
    /// How many of them became references.
    pub referenced: nat,
    /// The offset of the entry that was extracted last.
    pub last_offset: Option<u64>,
    /// The hash that the encoder gave for it.
    pub last_hash: Option<Seq<u8>>,
    /// Whether an entry waits for its hash.
    pub pending: bool,
}

/// A deduplication before the first entry.
pub open spec fn dedup_start(total: nat) -> DedupState {
    DedupState {
        total,
        seen: 0,
        extracted: 0,
        referenced: 0,
        last_offset: None,
        last_hash: None,
        pending: false,
    }
}

/// What holds of every deduplication that started empty and went by the
/// rules.
pub open spec fn dedup_ok(s: DedupState) -> bool {
    &&& s.seen <= s.total
    &&& s.extracted + s.referenced == s.seen
    &&& s.pending ==> s.last_offset is Some
    &&& !s.pending ==> (s.last_offset is Some <==> s.last_hash is Some)
}

/// The answer to an entry at `offset`: an entry at the offset of the entry
/// extracted last becomes a reference to that entry's payload, any other
/// is to be extracted.
pub open spec fn dedup_offer_outcome(s: DedupState, offset: u64, info: FileInfo) -> Result<
    ActionText,
    DedupError,
> {
    if s.pending {
        Err(DedupError::PayloadPending)
    } else if s.seen >= s.total {
        Err(DedupError::TooManyEntries)
    } else if s.last_offset == Some(offset) && s.last_hash is Some {
        Ok(ActionText::AddReference { hash: s.last_hash->0, info })
    } else {
        Ok(ActionText::Extract { info, kind: kind_of(info.game_path@) })
    }
}

/// The deduplication after an entry at `offset` was offered.
pub open spec fn dedup_after_offer(s: DedupState, offset: u64, info: FileInfo) -> DedupState {
    match dedup_offer_outcome(s, offset, info) {
        Err(_) => s,
        Ok(ActionText::AddReference { .. }) => DedupState {
            seen: s.seen + 1,
            referenced: s.referenced + 1,
            ..s
        },
        Ok(ActionText::Extract { .. }) => DedupState {
            seen: s.seen + 1,
            extracted: s.extracted + 1,
            last_offset: Some(offset),
            pending: true,
            ..s
        },
    }
}

/// The answer to a hash: the progress to report, where an entry waited.
pub open spec fn dedup_hash_outcome(s: DedupState) -> Result<DeduplicateProgress, DedupError> {
    if s.pending {
        Ok(
            DeduplicateProgress::ProcessingFiles {
                current: s.seen as usize,
                total: s.total as usize,
            },
        )
    } else {
        Err(DedupError::NothingPending)
    }
}

/// The deduplication after the hash of the waiting entry was handed in.
pub open spec fn dedup_after_hash(s: DedupState, hash: Seq<u8>) -> DedupState {
    if s.pending {
        DedupState { pending: false, last_hash: Some(hash), ..s }
    } else {
        s
    }
}

/// Whether a deduplication can end: every announced entry was taken and
/// none waits.
pub open spec fn dedup_finish_outcome(s: DedupState) -> Result<DeduplicateProgress, DedupError> {
    if s.pending {
        Err(DedupError::PayloadPending)
    } else if s.seen < s.total {
        Err(DedupError::EntriesMissing)
    } else {
        Ok(DeduplicateProgress::CreatingArchive)
    }
}

/// The bytes of an optional hash.
pub open spec fn hash_text(hash: Option<Vec<u8>>) -> Option<Seq<u8>> {
    match hash {
        Some(h) => Some(h@),
        None => None,
    }
}

/// A copy of some bytes.
pub fn copy_bytes(bytes: &Vec<u8>) -> (copy: Vec<u8>)
    ensures
        copy@ == bytes@,
{
    let mut copy: Vec<u8> = Vec::new();
    let mut at: usize = 0;
    while at < bytes.len()
        invariant
            at <= bytes@.len(),
            copy@ == bytes@.take(at as int),
        decreases bytes@.len() - at,
    {
        copy.push(bytes[at]);
        proof {
            assert(copy@ =~= bytes@.take(at + 1));
        }
        at = at + 1;
    }
    proof {
        assert(bytes@.take(bytes@.len() as int) =~= bytes@);
    }
    copy
}

/// A deduplication of an archive's entries, taken in the order of their
/// offsets. The caller offers each entry, does with the encoder what it is
/// told, and hands in the hash of each payload that it extracted.
pub struct Deduplicator {
    total: usize,
    seen: usize,
    extracted: usize,
    referenced: usize,
    last_offset: Option<u64>,
    last_hash: Option<Vec<u8>>,
    pending: bool,
}

impl View for Deduplicator {
    type V = DedupState;

    closed spec fn view(&self) -> DedupState {
        DedupState {
            total: self.total as nat,
            seen: self.seen as nat,
            extracted: self.extracted as nat,
            referenced: self.referenced as nat,
            last_offset: self.last_offset,
            last_hash: hash_text(self.last_hash),
            pending: self.pending,
        }
    }
}

impl Deduplicator {
    /// The deduplication went by the rules so far.
    pub open spec fn wf(&self) -> bool {
        dedup_ok(self@)
    }

    /// A deduplication of `total` entries, before the first, with what to
    /// report at that point.
    pub fn new(total: usize) -> (start: (Self, DeduplicateProgress))
        ensures
            start.0.wf(),
            start.0@ == dedup_start(total as nat),
            start.1 == (DeduplicateProgress::ProcessingFiles { current: 0, total }),
    {
        (
            Deduplicator {
                total,
                seen: 0,
                extracted: 0,
                referenced: 0,
                last_offset: None,
                last_hash: None,
                pending: false,
            },
            DeduplicateProgress::ProcessingFiles { current: 0, total },
        )
    }

    /// How many entries had to be extracted so far.
    pub fn extracted(&self) -> (count: usize)
        ensures
            count == self@.extracted,
    {
        self.extracted
    }

    /// How many entries became references so far.
    pub fn referenced(&self) -> (count: usize)
        ensures
            count == self@.referenced,
    {
        self.referenced
    }

    /// Offers the next entry.
    pub fn offer(&mut self, offset: u64, info: FileInfo) -> (outcome: Result<
        DedupAction,
        DedupError,
    >)
        requires
            old(self).wf(),
        ensures
            final(self).wf(),
            match outcome {
                Ok(action) => dedup_offer_outcome(old(self)@, offset, info) == Ok::<
                    ActionText,
                    DedupError,
                >(action_text(action)),
                Err(e) => dedup_offer_outcome(old(self)@, offset, info) == Err::<
                    ActionText,
                    DedupError,
                >(e),
            },
            final(self)@ == dedup_after_offer(old(self)@, offset, info),
    {
        if self.pending {
            return Err(DedupError::PayloadPending);
        }
        if self.seen >= self.total {
            return Err(DedupError::TooManyEntries);
        }
        let repeats = match self.last_offset {
            Some(last) => last == offset,
            None => false,
        };
        if repeats {
            match &self.last_hash {
                Some(hash) => {
                    let hash = copy_bytes(hash);
                    self.seen = self.seen + 1;
                    self.referenced = self.referenced + 1;
                    return Ok(DedupAction::AddReference { hash, info });
                },
                None => {},
            }
        }
        let kind = classify(info.game_path.as_str());
        self.seen = self.seen + 1;
        self.extracted = self.extracted + 1;
        self.last_offset = Some(offset);
        self.pending = true;
        Ok(DedupAction::Extract { info, kind })
    }

    /// Hands in the hash that the encoder gave for the entry that waits.
    pub fn hash(&mut self, hash: Vec<u8>) -> (outcome: Result<DeduplicateProgress, DedupError>)
        requires
            old(self).wf(),
        ensures
            final(self).wf(),
            outcome == dedup_hash_outcome(old(self)@),
            final(self)@ == dedup_after_hash(old(self)@, hash@),
    {
        if self.pending {
            self.pending = false;
            self.last_hash = Some(hash);
            Ok(DeduplicateProgress::ProcessingFiles { current: self.seen, total: self.total })
        } else {
            Err(DedupError::NothingPending)
        }
    }

    /// Ends the run over the entries, with what to report next.
    pub fn finish(self) -> (outcome: Result<DeduplicateProgress, DedupError>)
        requires
            self.wf(),
        ensures
            outcome == dedup_finish_outcome(self@),
    {
        if self.pending {
            Err(DedupError::PayloadPending)
        } else if self.seen < self.total {
            Err(DedupError::EntriesMissing)
        } else {
            Ok(DeduplicateProgress::CreatingArchive)
        }
    }
}

/// One entry of an archive together with the hash that the encoder gives
/// for its payload.
pub ghost struct DedupItem {
    pub offset: u64,
    pub info: FileInfo,
    pub hash: Seq<u8>,
}

/// The offsets of the entries, in their order.
pub open spec fn dedup_offsets(items: Seq<DedupItem>) -> Seq<u64> {
    items.map_values(|item: DedupItem| item.offset)
}

/// The deduplication after one more entry went through it: offered, and
/// its hash handed in where the entry had to be extracted.
pub open spec fn dedup_step(s: DedupState, item: DedupItem) -> DedupState {
    let offered = dedup_after_offer(s, item.offset, item.info);
    if offered.pending {
        dedup_after_hash(offered, item.hash)
    } else {
        offered
    }
}

/// The deduplication of `total` announced entries after `items` went
/// through it.
pub open spec fn deduped(total: nat, items: Seq<DedupItem>) -> DedupState
    decreases items.len(),
{
    if items.len() == 0 {
        dedup_start(total)
    } else {
        dedup_step(deduped(total, items.drop_last()), items.last())
    }
}

/// Of `N` entries, of which `M` lie at the offset of the entry before
/// them, exactly `N - M` are extracted and exactly `M` become references:
/// no payload is extracted twice in a row, and no entry is lost.
pub proof fn lemma_deduped(total: nat, items: Seq<DedupItem>)
    requires
        items.len() <= total,
    ensures
        dedup_ok(deduped(total, items)),
        !deduped(total, items).pending,
        deduped(total, items).total == total,
        deduped(total, items).seen == items.len(),
        deduped(total, items).referenced == repeat_count(dedup_offsets(items)),
        deduped(total, items).extracted == items.len() - repeat_count(dedup_offsets(items)),
        match deduped(total, items).last_offset {
            Some(last) => items.len() > 0 && last == items.last().offset,
            None => items.len() == 0,
        },
    decreases items.len(),
{
    if items.len() > 0 {
        let front = items.drop_last();
        lemma_deduped(total, front);
        assert(dedup_offsets(items).drop_last() =~= dedup_offsets(front));
        if front.len() > 0 {
            assert(front.last() == items[items.len() - 2]);
        }
        let before = deduped(total, front);
        let item = items.last();
        if before.last_offset == Some(item.offset) {
            assert(repeats(dedup_offsets(items), items.len() - 1));
        } else {
            assert(!repeats(dedup_offsets(items), items.len() - 1));
        }
    }
}

} // verus!
