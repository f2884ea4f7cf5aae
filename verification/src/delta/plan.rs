use crate::delta::hashes::{
    fresh, lemma_fresh, local_hashes, new_payloads, pair_texts, payload_hashes, HashedPaths,
};
use crate::delta::refs::{all_refs, file_refs, groups_refs, normal, normals};
use crate::delta::rewrite::{
    groups_pointed, lemma_resolvable_parts, resolvable, rewrite_groups, rewrite_simple,
    simple_pointed, target,
};
use crate::delta::{DeltaError, DeltaProgress, PenumbraGroup, PenumbraStandardOptionSimple};
use crate::keyed::{has_key, key_place, stored};
use crate::text::{decimal, joined, three_digits, zero_padded};
use crate::text_set::{distinct, lemma_distinct};
use crate::usage::report::known_set;
use vstd::prelude::*;

verus! {

/// What goes into one file of a delta.
#[derive(Debug, PartialEq, Eq)]
pub enum OutputContent {
    /// The bytes of the mod's file at `source`.
    Payload { source: String },
    /// The note of the version that the delta leads to.
    Manifest,
    /// The mod's `meta.json` as it is.
    Metadata,
    /// The default option, pointing at payloads.
    DefaultMod,
    /// The group at `index`, pointing at payloads.
    Group { index: usize },
}

/// One file of a delta: its name and what goes into it.
#[derive(Debug, PartialEq, Eq)]
pub struct OutputStep {
    pub name: String,
    pub content: OutputContent,
}

/// What goes into one file of a delta, in the abstract.
pub ghost enum ContentText {
    Payload { source: Seq<char> },
    Manifest,
    Metadata,
    DefaultMod,
    Group { index: nat },
}

/// What a step stands for.
pub open spec fn step_text(step: OutputStep) -> (Seq<char>, ContentText) {
    (
        step.name@,
        match step.content {
            OutputContent::Payload { source } => ContentText::Payload { source: source@ },
            OutputContent::Manifest => ContentText::Manifest,
            OutputContent::Metadata => ContentText::Metadata,
            OutputContent::DefaultMod => ContentText::DefaultMod,
            OutputContent::Group { index } => ContentText::Group { index: index as nat },
        },
    )
}

/// What the steps of a list stand for.
pub open spec fn step_texts(steps: Seq<OutputStep>) -> Seq<(Seq<char>, ContentText)> {
    steps.map_values(|s: OutputStep| step_text(s))
}

/// The name of the descriptor of the group at `index`: groups are counted
/// from one, in at least three digits.
pub open spec fn group_file(index: nat) -> Seq<char> {
    "group_"@ + zero_padded(decimal(index + 1), 3) + "_group.json"@
}

/// The file of a delta at place `k`: first the payloads in their order,
/// then the note of the version, the metadata, the default option, and the
/// groups in their order.
pub open spec fn step_at(payloads: Seq<(Seq<char>, Seq<char>)>, k: int) -> (
    Seq<char>,
    ContentText,
) {
    let n = payloads.len();
    if k < n {
        (target(payloads[k].0), ContentText::Payload { source: payloads[k].1 })
    } else if k == n {
        ("heliosphere_delta.json"@, ContentText::Manifest)
    } else if k == n + 1 {
        ("meta.json"@, ContentText::Metadata)
    } else if k == n + 2 {
        ("default_mod.json"@, ContentText::DefaultMod)
    } else {
        (group_file((k - n - 3) as nat), ContentText::Group { index: (k - n - 3) as nat })
    }
}

/// All the files of a delta, in the order in which they are written.
pub open spec fn steps_of(payloads: Seq<(Seq<char>, Seq<char>)>, groups: nat) -> Seq<
    (Seq<char>, ContentText),
> {
    Seq::new(payloads.len() + 3 + groups, |k: int| step_at(payloads, k))
}

/// Lists the files of a delta. Fails with `TooManySteps` exactly where
/// their number is more than a `usize` holds.
pub fn output_steps(payloads: &Vec<(String, String)>, groups: usize) -> (outcome: Result<
    Vec<OutputStep>,
    DeltaError,
>)
    ensures
        match outcome {
            Ok(steps) => step_texts(steps@) == steps_of(pair_texts(payloads@), groups as nat),
            Err(e) => e == DeltaError::TooManySteps && payloads@.len() + 3 + groups > usize::MAX,
        },
{
    let count = payloads.len();
    let total = match count.checked_add(3) {
        Some(fixed) => match fixed.checked_add(groups) {
            Some(total) => total,
            None => {
                return Err(DeltaError::TooManySteps);
            },
        },
        None => {
            return Err(DeltaError::TooManySteps);
        },
    };
    let ghost texts = pair_texts(payloads@);
    let ghost want = steps_of(texts, groups as nat);
    let mut steps: Vec<OutputStep> = Vec::new();
    let mut at: usize = 0;
    while at < count
        invariant
            at <= count,
            count == payloads@.len(),
            texts == pair_texts(payloads@),
            want == steps_of(texts, groups as nat),
            total == count + 3 + groups,
            step_texts(steps@) == want.take(at as int),
        decreases count - at,
    {
        let ghost had = step_texts(steps@);
        let step = OutputStep {
            name: joined("files/", payloads[at].0.as_str()),
            content: OutputContent::Payload { source: payloads[at].1.clone() },
        };
        steps.push(step);
        proof {
            assert(texts[at as int] == (payloads@[at as int].0@, payloads@[at as int].1@));
            assert(step_texts(steps@) =~= had.push(step_text(step)));
            assert(want.take(at + 1) =~= want.take(at as int).push(want[at as int]));
        }
        at = at + 1;
    }
    let ghost had = step_texts(steps@);
    let manifest = OutputStep {
        name: String::from_str("heliosphere_delta.json"),
        content: OutputContent::Manifest,
    };
    let metadata = OutputStep {
        name: String::from_str("meta.json"),
        content: OutputContent::Metadata,
    };
    let default = OutputStep {
        name: String::from_str("default_mod.json"),
        content: OutputContent::DefaultMod,
    };
    steps.push(manifest);
    steps.push(metadata);
    steps.push(default);
    proof {
        assert(step_texts(steps@) =~= had.push(step_text(manifest)).push(step_text(metadata)).push(
            step_text(default),
        ));
        assert(step_texts(steps@) =~= want.take(count + 3));
    }
    let mut index: usize = 0;
    while index < groups
        invariant
            index <= groups,
            count == payloads@.len(),
            texts == pair_texts(payloads@),
            want == steps_of(texts, groups as nat),
            total == count + 3 + groups,
            step_texts(steps@) == want.take(count + 3 + index),
        decreases groups - index,
    {
        let ghost had = step_texts(steps@);
        let number = three_digits(index + 1);
        let name = joined(joined("group_", number.as_str()).as_str(), "_group.json");
        let step = OutputStep { name, content: OutputContent::Group { index } };
        steps.push(step);
        proof {
            assert(step_texts(steps@) =~= had.push(step_text(step)));
            assert(want.take(count + 3 + index + 1) =~= want.take(count + 3 + index).push(
                want[count + 3 + index],
            ));
        }
        index = index + 1;
    }
    proof {
        assert(want.take(want.len() as int) =~= want);
    }
    Ok(steps)
}

/// What is to be written for a delta: the payloads that the remote side
/// lacks, each with a path that holds it, the descriptors pointing at
/// payloads, and the files of the delta in the order of writing.
pub struct DeltaPlan {
    pub payloads: Vec<(String, String)>,
    pub default: PenumbraStandardOptionSimple,
    pub groups: Vec<PenumbraGroup>,
    pub steps: Vec<OutputStep>,
}

impl DeltaPlan {
    /// What to report when `done` files of the delta are written.
    pub fn progress(&self, done: usize) -> (progress: DeltaProgress)
        ensures
            progress == (DeltaProgress::CreatingUpdateFile {
                current: done,
                total: self.steps@.len() as usize,
            }),
    {
        DeltaProgress::CreatingUpdateFile { current: done, total: self.steps.len() }
    }
}

/// Plans a delta from the descriptors of a mod, the hashes of its files
/// and the hashes that the remote side has. Fails with `InvariantViolated`
/// exactly where a referenced file has no hash, and else with
/// `TooManySteps` exactly where the delta would have more files than a
/// `usize` counts.
pub fn plan_delta(
    default: PenumbraStandardOptionSimple,
    groups: Vec<PenumbraGroup>,
    hashed: &HashedPaths,
    remote: &Vec<String>,
) -> (outcome: Result<DeltaPlan, DeltaError>)
    requires
        hashed.wf(),
    ensures
        match outcome {
            Ok(plan) => {
                &&& resolvable(all_refs(default, groups@), hashed@)
                &&& pair_texts(plan.payloads@) == fresh(hashed@, known_set(remote@))
                &&& simple_pointed(default, plan.default, hashed@)
                &&& groups_pointed(groups@, plan.groups@, hashed@)
                &&& step_texts(plan.steps@) == steps_of(
                    fresh(hashed@, known_set(remote@)),
                    groups@.len(),
                )
            },
            Err(e) => if !resolvable(all_refs(default, groups@), hashed@) {
                e == DeltaError::InvariantViolated
            } else {
                &&& e == DeltaError::TooManySteps
                &&& fresh(hashed@, known_set(remote@)).len() + 3 + groups@.len() > usize::MAX
            },
        },
{
    proof {
        lemma_resolvable_parts(file_refs(default), groups_refs(groups@), hashed@);
    }
    let count = groups.len();
    let payloads = new_payloads(hashed, remote);
    let new_default = match rewrite_simple(default, hashed) {
        Ok(out) => out,
        Err(e) => {
            return Err(e);
        },
    };
    let new_groups = match rewrite_groups(groups, hashed) {
        Ok(out) => out,
        Err(e) => {
            return Err(e);
        },
    };
    let steps = match output_steps(&payloads, count) {
        Ok(steps) => steps,
        Err(e) => {
            return Err(e);
        },
    };
    Ok(DeltaPlan { payloads, default: new_default, groups: new_groups, steps })
}

/// Every file that a descriptor points at is in the delta or with the
/// remote side: the hash of a referenced file is among the new payloads or
/// among the hashes that the remote side has.
pub proof fn lemma_pointed_resolves(
    pairs: Seq<(Seq<char>, Seq<char>)>,
    remote: Set<Seq<char>>,
    reference: Seq<char>,
)
    requires
        has_key(pairs, normal(reference)),
    ensures
        stored(pairs, normal(reference)) matches Some(hash) && (has_key(
            fresh(pairs, remote),
            hash,
        ) || remote.contains(hash)),
{
    let at = key_place(pairs, normal(reference));
    let hash = pairs[at].1;
    assert(local_hashes(pairs).contains(hash));
    lemma_fresh(pairs, remote);
    if !remote.contains(hash) {
        assert(local_hashes(pairs).difference(remote).contains(hash));
        assert(payload_hashes(fresh(pairs, remote)).contains(hash));
    }
}

/// Where every referenced path was hashed under its one form, every
/// reference can be pointed at a payload, with slashes or backslashes.
pub proof fn lemma_hashed_paths_resolve(refs: Seq<Seq<char>>, pairs: Seq<(Seq<char>, Seq<char>)>)
    requires
        forall|t: Seq<char>| distinct(normals(refs)).contains(t) ==> has_key(pairs, t),
    ensures
        resolvable(refs, pairs),
{
    lemma_distinct(normals(refs));
    assert forall|i: int| 0 <= i < refs.len() implies has_key(pairs, normal(#[trigger] refs[i])) by {
        assert(normals(refs)[i] == normal(refs[i]));
        assert(normals(refs).contains(normal(refs[i])));
    }
}

} // verus!
