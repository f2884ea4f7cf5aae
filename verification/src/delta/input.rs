use crate::delta::DeltaError;
use crate::text::{str_ends_with, str_eq, str_starts_with, text_le, texts};
use vstd::prelude::*;

verus! {

/// What the extension of the input says of it: only `pmp` is taken.
pub open spec fn kind_of_extension(extension: Option<Seq<char>>) -> Result<(), DeltaError> {
    match extension {
        Some(ext) => if ext == "pmp"@ {
            Ok(())
        } else if ext == "ttmp"@ || ext == "ttmp2"@ {
            Err(DeltaError::TextoolsNotSupported)
        } else {
            Err(DeltaError::UnknownFileType)
        },
        None => Err(DeltaError::UnknownFileType),
    }
}

/// The text of an optional string.
pub open spec fn text_of(s: Option<&str>) -> Option<Seq<char>> {
    match s {
        Some(t) => Some(t@),
        None => None,
    }
}

/// Decides by its extension whether a file can be the input of a delta.
pub fn check_extension(extension: Option<&str>) -> (outcome: Result<(), DeltaError>)
    ensures
        outcome == kind_of_extension(text_of(extension)),
{
    match extension {
        Some(ext) => {
            if str_eq(ext, "pmp") {
                Ok(())
            } else if str_eq(ext, "ttmp") || str_eq(ext, "ttmp2") {
                Err(DeltaError::TextoolsNotSupported)
            } else {
                Err(DeltaError::UnknownFileType)
            }
        },
        None => Err(DeltaError::UnknownFileType),
    }
}

/// Whether the names of the input's files hold `meta.json`: fails with
/// `MissingMeta` exactly where they do not.
pub fn check_metadata(names: &Vec<String>) -> (outcome: Result<(), DeltaError>)
    ensures
        outcome == if texts(names@).contains("meta.json"@) {
            Ok::<(), DeltaError>(())
        } else {
            Err::<(), DeltaError>(DeltaError::MissingMeta)
        },
{
    let mut at: usize = 0;
    while at < names.len()
        invariant
            at <= names@.len(),
            forall|j: int| 0 <= j < at ==> (#[trigger] names@[j])@ != "meta.json"@,
        decreases names@.len() - at,
    {
        if str_eq(names[at].as_str(), "meta.json") {
            proof {
                assert(texts(names@)[at as int] == "meta.json"@);
            }
            return Ok(());
        }
        at = at + 1;
    }
    proof {
        assert forall|j: int| 0 <= j < texts(names@).len() implies texts(names@)[j]
            != "meta.json"@ by {
            assert(names@[j]@ != "meta.json"@);
        }
    }
    Err(DeltaError::MissingMeta)
}

/// The byte order mark that may stand before a descriptor.
pub open spec fn bom() -> Seq<u8> {
    seq![0xEFu8, 0xBBu8, 0xBFu8]
}

/// `data` without a byte order mark at its start.
pub open spec fn without_bom(data: Seq<u8>) -> Seq<u8> {
    if bom().is_prefix_of(data) {
        data.skip(3)
    } else {
        data
    }
}

/// Leaves out a byte order mark at the start of a descriptor.
pub fn skip_bom(data: &[u8]) -> (rest: &[u8])
    ensures
        rest@ == without_bom(data@),
{
    if data.len() >= 3 && data[0] == 0xEF && data[1] == 0xBB && data[2] == 0xBF {
        proof {
            assert(data@.subrange(0, 3) =~= bom());
        }
        vstd::slice::slice_subrange(data, 3, data.len())
    } else {
        proof {
            if bom().is_prefix_of(data@) {
                assert(data@.subrange(0, 3)[0] == bom()[0]);
                assert(data@.subrange(0, 3)[1] == bom()[1]);
                assert(data@.subrange(0, 3)[2] == bom()[2]);
            }
        }
        data
    }
}

/// Whether a file name is that of a group descriptor.
pub open spec fn is_group_name(name: Seq<char>) -> bool {
    "group_"@.is_prefix_of(name) && ".json"@.is_suffix_of(name)
}

/// Tells whether a file of the input is a group descriptor.
pub fn is_group_descriptor(name: &str) -> (is: bool)
    ensures
        is == is_group_name(name@),
{
    str_starts_with(name, "group_") && str_ends_with(name, ".json")
}

/// The names among `names` that are those of group descriptors, in their
/// order.
pub open spec fn group_names(names: Seq<Seq<char>>) -> Seq<Seq<char>>
    decreases names.len(),
{
    if names.len() == 0 {
        Seq::<Seq<char>>::empty()
    } else if is_group_name(names.last()) {
        group_names(names.drop_last()).push(names.last())
    } else {
        group_names(names.drop_last())
    }
}

/// Whether the texts stand in ascending order.
pub open spec fn ascending(list: Seq<Seq<char>>) -> bool {
    forall|i: int, j: int| 0 <= i <= j < list.len() ==> text_le(list[i], list[j])
}

/// `Itertools::sorted_unstable` on strings, collected: the same strings in
/// ascending order.
#[verifier::external_body]
fn sorted_strings(list: Vec<String>) -> (sorted: Vec<String>)
    ensures
        texts(sorted@).to_multiset() == texts(list@).to_multiset(),
        ascending(texts(sorted@)),
{
    itertools::Itertools::sorted_unstable(list.into_iter()).collect()
}

/// The group descriptors among the files of the input, in ascending order
/// of their names.
pub fn group_paths(names: &Vec<String>) -> (paths: Vec<String>)
    ensures
        texts(paths@).to_multiset() == group_names(texts(names@)).to_multiset(),
        ascending(texts(paths@)),
{
    let mut picked: Vec<String> = Vec::new();
    let mut at: usize = 0;
    while at < names.len()
        invariant
            at <= names@.len(),
            texts(picked@) == group_names(texts(names@).take(at as int)),
        decreases names@.len() - at,
    {
        proof {
            assert(texts(names@).take(at + 1).drop_last() =~= texts(names@).take(at as int));
            assert(texts(names@).take(at + 1).last() == names@[at as int]@);
        }
        if is_group_descriptor(names[at].as_str()) {
            let ghost before = texts(picked@);
            picked.push(names[at].clone());
            proof {
                assert(texts(picked@) =~= before.push(names@[at as int]@));
            }
        }
        at = at + 1;
    }
    proof {
        assert(texts(names@).take(names@.len() as int) =~= texts(names@));
    }
    sorted_strings(picked)
}

} // verus!
