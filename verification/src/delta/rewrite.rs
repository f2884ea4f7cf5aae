use crate::delta::hashes::{pair_texts, HashedPaths};
use crate::delta::refs::{
    file_refs, group_refs, groups_refs, lemma_groups_refs_grow, lemma_options_refs_grow, normal,
    normalize, options_refs,
};
use crate::delta::{
    DeltaError, GroupKind, PenumbraGroup, PenumbraStandardOption, PenumbraStandardOptionSimple,
};
use crate::keyed::{has_key, stored};
use crate::text::joined;
use vstd::prelude::*;

verus! {

/// The name under which a payload stands in a delta.
pub open spec fn target(hash: Seq<char>) -> Seq<char> {
    "files/"@ + hash
}

/// Whether every file of the list has a hash: whether the table holds each
/// reference in its one form.
pub open spec fn resolvable(refs: Seq<Seq<char>>, pairs: Seq<(Seq<char>, Seq<char>)>) -> bool {
    forall|i: int| 0 <= i < refs.len() ==> has_key(pairs, normal(#[trigger] refs[i]))
}

/// File references that point at payloads by hash: each game path as it
/// was, with the name of the payload that its file holds. The file is
/// looked up under its one form, however the reference writes it.
pub open spec fn pointed(
    files: Seq<(Seq<char>, Seq<char>)>,
    pairs: Seq<(Seq<char>, Seq<char>)>,
) -> Seq<(Seq<char>, Seq<char>)> {
    files.map_values(
        |e: (Seq<char>, Seq<char>)|
            (
                e.0,
                match stored(pairs, normal(e.1)) {
                    Some(hash) => target(hash),
                    None => e.1,
                },
            ),
    )
}

/// `after` is `before` with its file references pointing at payloads, and
/// nothing else changed.
pub open spec fn simple_pointed(
    before: PenumbraStandardOptionSimple,
    after: PenumbraStandardOptionSimple,
    pairs: Seq<(Seq<char>, Seq<char>)>,
) -> bool {
    &&& pair_texts(after.files@) == pointed(pair_texts(before.files@), pairs)
    &&& after.version == before.version
    &&& after.file_swaps == before.file_swaps
    &&& after.manipulations == before.manipulations
}

/// `after` is the option `before` with its file references pointing at
/// payloads.
pub open spec fn option_pointed(
    before: PenumbraStandardOption,
    after: PenumbraStandardOption,
    pairs: Seq<(Seq<char>, Seq<char>)>,
) -> bool {
    &&& after.name == before.name
    &&& after.description == before.description
    &&& after.priority == before.priority
    &&& simple_pointed(before.simple, after.simple, pairs)
}

/// The same, option by option.
pub open spec fn options_pointed(
    before: Seq<PenumbraStandardOption>,
    after: Seq<PenumbraStandardOption>,
    pairs: Seq<(Seq<char>, Seq<char>)>,
) -> bool {
    &&& after.len() == before.len()
    &&& forall|i: int|
        0 <= i < before.len() ==> option_pointed(before[i], #[trigger] after[i], pairs)
}

/// `after` is the group `before` with the file references of its options
/// pointing at payloads; a group that refers to no files is as it was.
pub open spec fn group_pointed(
    before: PenumbraGroup,
    after: PenumbraGroup,
    pairs: Seq<(Seq<char>, Seq<char>)>,
) -> bool {
    &&& after.version == before.version
    &&& after.name == before.name
    &&& after.description == before.description
    &&& after.priority == before.priority
    &&& after.default_settings == before.default_settings
    &&& match before.kind {
        GroupKind::Single { options } => after.kind matches GroupKind::Single { options: now }
            && options_pointed(options@, now@, pairs),
        GroupKind::Multi { options } => after.kind matches GroupKind::Multi { options: now }
            && options_pointed(options@, now@, pairs),
        GroupKind::Imc { .. } => after.kind == before.kind,
    }
}

/// The same, group by group.
pub open spec fn groups_pointed(
    before: Seq<PenumbraGroup>,
    after: Seq<PenumbraGroup>,
    pairs: Seq<(Seq<char>, Seq<char>)>,
) -> bool {
    &&& after.len() == before.len()
    &&& forall|i: int| 0 <= i < before.len() ==> group_pointed(before[i], #[trigger] after[i], pairs)
}

/// A list of files is resolvable exactly when its parts are.
pub proof fn lemma_resolvable_parts(
    a: Seq<Seq<char>>,
    b: Seq<Seq<char>>,
    pairs: Seq<(Seq<char>, Seq<char>)>,
)
    ensures
        resolvable(a + b, pairs) <==> resolvable(a, pairs) && resolvable(b, pairs),
{
    let whole = a + b;
    if resolvable(whole, pairs) {
        assert forall|i: int| 0 <= i < a.len() implies has_key(pairs, normal(#[trigger] a[i])) by {
            assert(whole[i] == a[i]);
        }
        assert forall|i: int| 0 <= i < b.len() implies has_key(pairs, normal(#[trigger] b[i])) by {
            assert(whole[a.len() + i] == b[i]);
        }
    }
    if resolvable(a, pairs) && resolvable(b, pairs) {
        assert forall|i: int| 0 <= i < whole.len() implies has_key(
            pairs,
            normal(#[trigger] whole[i]),
        ) by {
            if i < a.len() {
                assert(whole[i] == a[i]);
            } else {
                assert(whole[i] == b[i - a.len()]);
            }
        }
    }
}

/// Points the file references of one setting at payloads, each by the
/// hash kept under the one form of its path. Fails with
/// `InvariantViolated` exactly where a file has no hash.
pub fn rewrite_simple(simple: PenumbraStandardOptionSimple, hashed: &HashedPaths) -> (outcome:
    Result<PenumbraStandardOptionSimple, DeltaError>)
    requires
        hashed.wf(),
    ensures
        match outcome {
            Ok(out) => resolvable(file_refs(simple), hashed@) && simple_pointed(
                simple,
                out,
                hashed@,
            ),
            Err(e) => e == DeltaError::InvariantViolated && !resolvable(
                file_refs(simple),
                hashed@,
            ),
        },
{
    let ghost refs = file_refs(simple);
    let ghost before = pair_texts(simple.files@);
    let ghost pairs = hashed@;
    let version = simple.version;
    let file_swaps = simple.file_swaps;
    let manipulations = simple.manipulations;
    let mut files: Vec<(String, String)> = Vec::new();
    for pair in it: simple.files
        invariant
            hashed.wf(),
            pairs == hashed@,
            it.seq() == simple.files@,
            refs == file_refs(simple),
            before == pair_texts(simple.files@),
            pair_texts(files@) == pointed(before.take(it.index() as int), pairs),
            resolvable(refs.take(it.index() as int), pairs),
    {
        let ghost at = it.index() as int;
        proof {
            assert(refs[at] == pair.1@);
            assert(before[at] == (pair.0@, pair.1@));
        }
        let path = normalize(pair.1.as_str());
        match hashed.lookup(path.as_str()) {
            Some(hash) => {
                let ghost had = pair_texts(files@);
                let name = joined("files/", hash.as_str());
                files.push((pair.0, name));
                proof {
                    assert(pair_texts(files@) =~= had.push((pair.0@, target(hash@))));
                    assert(pointed(before.take(at + 1), pairs) =~= pointed(
                        before.take(at),
                        pairs,
                    ).push((pair.0@, target(hash@))));
                    assert forall|i: int| 0 <= i < refs.take(at + 1).len() implies has_key(
                        pairs,
                        normal(#[trigger] refs.take(at + 1)[i]),
                    ) by {
                        if i < at {
                            assert(refs.take(at)[i] == refs[i]);
                        }
                    }
                }
            },
            None => {
                return Err(DeltaError::InvariantViolated);
            },
        }
    }
    proof {
        assert(refs.take(refs.len() as int) =~= refs);
        assert(before.take(before.len() as int) =~= before);
    }
    Ok(PenumbraStandardOptionSimple { version, files, file_swaps, manipulations })
}

/// Points the file references of a list of options at payloads. Fails with
/// `InvariantViolated` exactly where a file has no hash.
pub fn rewrite_options(options: Vec<PenumbraStandardOption>, hashed: &HashedPaths) -> (outcome:
    Result<Vec<PenumbraStandardOption>, DeltaError>)
    requires
        hashed.wf(),
    ensures
        match outcome {
            Ok(out) => resolvable(options_refs(options@), hashed@) && options_pointed(
                options@,
                out@,
                hashed@,
            ),
            Err(e) => e == DeltaError::InvariantViolated && !resolvable(
                options_refs(options@),
                hashed@,
            ),
        },
{
    let ghost pairs = hashed@;
    let mut out: Vec<PenumbraStandardOption> = Vec::new();
    for option in it: options
        invariant
            hashed.wf(),
            pairs == hashed@,
            it.seq() == options@,
            options_pointed(options@.take(it.index() as int), out@, pairs),
            resolvable(options_refs(options@.take(it.index() as int)), pairs),
    {
        let ghost at = it.index() as int;
        proof {
            assert(options@.take(at + 1).drop_last() =~= options@.take(at));
            assert(options@.take(at + 1).last() == option);
            lemma_resolvable_parts(options_refs(options@.take(at)), file_refs(option.simple), pairs);
            lemma_options_refs_grow(options@, at + 1);
            lemma_resolvable_parts(
                options_refs(options@.take(at + 1)),
                options_refs(options@.skip(at + 1)),
                pairs,
            );
        }
        let name = option.name;
        let description = option.description;
        let priority = option.priority;
        match rewrite_simple(option.simple, hashed) {
            Ok(simple) => {
                let ghost had = out@;
                let now = PenumbraStandardOption { name, description, priority, simple };
                out.push(now);
                proof {
                    assert forall|i: int| 0 <= i < at + 1 implies option_pointed(
                        options@.take(at + 1)[i],
                        #[trigger] out@[i],
                        pairs,
                    ) by {
                        if i < at {
                            assert(out@[i] == had[i]);
                            assert(options@.take(at)[i] == options@.take(at + 1)[i]);
                        }
                    }
                }
            },
            Err(e) => {
                return Err(e);
            },
        }
    }
    proof {
        assert(options@.take(options@.len() as int) =~= options@);
    }
    Ok(out)
}

/// Points the file references of a group at payloads. Fails with
/// `InvariantViolated` exactly where a file has no hash.
pub fn rewrite_group(group: PenumbraGroup, hashed: &HashedPaths) -> (outcome: Result<
    PenumbraGroup,
    DeltaError,
>)
    requires
        hashed.wf(),
    ensures
        match outcome {
            Ok(out) => resolvable(group_refs(group), hashed@) && group_pointed(group, out, hashed@),
            Err(e) => e == DeltaError::InvariantViolated && !resolvable(group_refs(group), hashed@),
        },
{
    let version = group.version;
    let name = group.name;
    let description = group.description;
    let priority = group.priority;
    let default_settings = group.default_settings;
    let kind = match group.kind {
        GroupKind::Single { options } => {
            match rewrite_options(options, hashed) {
                Ok(now) => GroupKind::Single { options: now },
                Err(e) => {
                    return Err(e);
                },
            }
        },
        GroupKind::Multi { options } => {
            match rewrite_options(options, hashed) {
                Ok(now) => GroupKind::Multi { options: now },
                Err(e) => {
                    return Err(e);
                },
            }
        },
        GroupKind::Imc { identifier, all_variants, default_entry, options } => GroupKind::Imc {
            identifier,
            all_variants,
            default_entry,
            options,
        },
    };
    Ok(PenumbraGroup { version, name, description, priority, default_settings, kind })
}

/// Points the file references of a list of groups at payloads. Fails with
/// `InvariantViolated` exactly where a file has no hash.
pub fn rewrite_groups(groups: Vec<PenumbraGroup>, hashed: &HashedPaths) -> (outcome: Result<
    Vec<PenumbraGroup>,
    DeltaError,
>)
    requires
        hashed.wf(),
    ensures
        match outcome {
            Ok(out) => resolvable(groups_refs(groups@), hashed@) && groups_pointed(
                groups@,
                out@,
                hashed@,
            ),
            Err(e) => e == DeltaError::InvariantViolated && !resolvable(
                groups_refs(groups@),
                hashed@,
            ),
        },
{
    let ghost pairs = hashed@;
    let mut out: Vec<PenumbraGroup> = Vec::new();
    for group in it: groups
        invariant
            hashed.wf(),
            pairs == hashed@,
            it.seq() == groups@,
            groups_pointed(groups@.take(it.index() as int), out@, pairs),
            resolvable(groups_refs(groups@.take(it.index() as int)), pairs),
    {
        let ghost at = it.index() as int;
        proof {
            assert(groups@.take(at + 1).drop_last() =~= groups@.take(at));
            assert(groups@.take(at + 1).last() == group);
            lemma_resolvable_parts(groups_refs(groups@.take(at)), group_refs(group), pairs);
            lemma_groups_refs_grow(groups@, at + 1);
            lemma_resolvable_parts(
                groups_refs(groups@.take(at + 1)),
                groups_refs(groups@.skip(at + 1)),
                pairs,
            );
        }
        match rewrite_group(group, hashed) {
            Ok(now) => {
                let ghost had = out@;
                out.push(now);
                proof {
                    assert forall|i: int| 0 <= i < at + 1 implies group_pointed(
                        groups@.take(at + 1)[i],
                        #[trigger] out@[i],
                        pairs,
                    ) by {
                        if i < at {
                            assert(out@[i] == had[i]);
                            assert(groups@.take(at)[i] == groups@.take(at + 1)[i]);
                        }
                    }
                }
            },
            Err(e) => {
                return Err(e);
            },
        }
    }
    proof {
        assert(groups@.take(groups@.len() as int) =~= groups@);
    }
    Ok(out)
}

} // verus!
