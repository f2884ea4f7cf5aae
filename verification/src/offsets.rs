use vstd::prelude::*;

verus! {

/// Whether the offset at `i` is that of the entry before it.
pub open spec fn repeats(offsets: Seq<u64>, i: int) -> bool {
    0 < i < offsets.len() && offsets[i] == offsets[i - 1]
}

/// How many entries lie at the offset of the entry before them.
pub open spec fn repeat_count(offsets: Seq<u64>) -> nat
    decreases offsets.len(),
{
    if offsets.len() == 0 {
        0
    } else if repeats(offsets, offsets.len() - 1) {
        repeat_count(offsets.drop_last()) + 1
    } else {
        repeat_count(offsets.drop_last())
    }
}

/// Whether the offsets stand in ascending order.
pub open spec fn ascending_offsets(offsets: Seq<u64>) -> bool {
    forall|i: int, j: int| 0 <= i <= j < offsets.len() ==> offsets[i] <= offsets[j]
}

/// Whether the entry at `i` shares its offset with some entry before it.
pub open spec fn shares_with_prior(offsets: Seq<u64>, i: int) -> bool {
    exists|j: int| 0 <= j < i && #[trigger] offsets[j] == offsets[i]
}

/// Among offsets in ascending order, an entry shares its offset with an
/// entry before it exactly when it lies at the offset of the entry just
/// before it.
pub proof fn lemma_sorted_repeats(offsets: Seq<u64>, i: int)
    requires
        ascending_offsets(offsets),
        0 <= i < offsets.len(),
    ensures
        shares_with_prior(offsets, i) <==> repeats(offsets, i),
{
    if shares_with_prior(offsets, i) {
        let j = choose|j: int| 0 <= j < i && #[trigger] offsets[j] == offsets[i];
        assert(offsets[j] <= offsets[i - 1]);
        assert(offsets[i - 1] <= offsets[i]);
    }
    if repeats(offsets, i) {
        assert(offsets[i - 1] == offsets[i]);
    }
}

/// Among the entries, those that repeat an offset are no more than all
/// but the first.
pub proof fn lemma_repeat_count_bound(offsets: Seq<u64>)
    ensures
        offsets.len() > 0 ==> repeat_count(offsets) < offsets.len(),
        repeat_count(offsets) <= offsets.len(),
    decreases offsets.len(),
{
    if offsets.len() > 0 {
        lemma_repeat_count_bound(offsets.drop_last());
    }
}

} // verus!
