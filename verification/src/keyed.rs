use vstd::prelude::*;

verus! {

/// Whether some entry of a list of keyed values is under `key`.
pub open spec fn has_key<V>(entries: Seq<(Seq<char>, V)>, key: Seq<char>) -> bool {
    exists|i: int| 0 <= i < entries.len() && (#[trigger] entries[i]).0 == key
}

/// The place of an entry under `key`, where there is one.
pub open spec fn key_place<V>(entries: Seq<(Seq<char>, V)>, key: Seq<char>) -> int {
    choose|i: int| 0 <= i < entries.len() && (#[trigger] entries[i]).0 == key
}

/// No two entries are under the same key.
pub open spec fn distinct_keys<V>(entries: Seq<(Seq<char>, V)>) -> bool {
    forall|i: int, j: int|
        0 <= i < j < entries.len() ==> (#[trigger] entries[i]).0 != (#[trigger] entries[j]).0
}

/// The value kept under `key`, if there is one.
pub open spec fn stored<V>(entries: Seq<(Seq<char>, V)>, key: Seq<char>) -> Option<V> {
    if has_key(entries, key) {
        Some(entries[key_place(entries, key)].1)
    } else {
        None
    }
}

/// Among distinct keys, the entry at a place is the one stored under its
/// key.
pub proof fn lemma_stored_at<V>(entries: Seq<(Seq<char>, V)>, at: int)
    requires
        distinct_keys(entries),
        0 <= at < entries.len(),
    ensures
        has_key(entries, entries[at].0),
        key_place(entries, entries[at].0) == at,
        stored(entries, entries[at].0) == Some(entries[at].1),
{
    let key = entries[at].0;
    assert(entries[at].0 == key);
    let chosen = key_place(entries, key);
    if chosen < at {
        assert(entries[chosen].0 != entries[at].0);
    } else if chosen > at {
        assert(entries[at].0 != entries[chosen].0);
    }
}

/// A value that was put at the end under a fresh key is the one found
/// there afterwards, and what stood under other keys still stands there.
pub proof fn lemma_stored_after_push<V>(
    entries: Seq<(Seq<char>, V)>,
    key: Seq<char>,
    value: V,
    other: Seq<char>,
)
    requires
        distinct_keys(entries),
        !has_key(entries, key),
    ensures
        distinct_keys(entries.push((key, value))),
        stored(entries.push((key, value)), key) == Some(value),
        other != key ==> has_key(entries.push((key, value)), other) == has_key(entries, other),
        other != key ==> stored(entries.push((key, value)), other) == stored(entries, other),
{
    let after = entries.push((key, value));
    assert forall|i: int, j: int| 0 <= i < j < after.len() implies (#[trigger] after[i]).0 != (
    #[trigger] after[j]).0 by {
        if j < entries.len() {
            assert(after[i] == entries[i]);
            assert(after[j] == entries[j]);
        } else {
            assert(after[i] == entries[i]);
        }
    }
    lemma_stored_at(after, entries.len() as int);
    if other != key {
        if has_key(entries, other) {
            let was = key_place(entries, other);
            assert(after[was] == entries[was]);
            lemma_stored_at(after, was);
        } else if has_key(after, other) {
            let now = key_place(after, other);
            assert(entries[now].0 == other);
        }
    }
}

} // verus!
