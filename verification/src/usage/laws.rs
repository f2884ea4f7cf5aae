use crate::offsets::{lemma_repeat_count_bound, repeat_count, repeats};
use crate::usage::scan::{
    after_offer, after_payload, last_hash, offer_outcome, scan_ok, scan_start, ScanAction,
    ScanState,
};
use crate::usage::table::{
    distinct_hashes, has_hash, lemma_recorded_has, lemma_with_path_keeps, recorded, row_of,
    with_path, Row,
};
use crate::usage::UsageError;
use vstd::prelude::*;
use vstd::seq_lib::*;

verus! {

/// One entry of an archive together with what measuring its payload gives.
pub ghost struct ScanItem {
    pub offset: u64,
    pub path: Seq<char>,
    pub hash: Seq<char>,
    pub size: nat,
}

/// The scan after one more entry went through it: offered, and measured
/// where the scan asked for that.
pub open spec fn scan_step(s: ScanState, item: ScanItem) -> ScanState {
    let offered = after_offer(s, item.offset, item.path);
    if offer_outcome(s, item.offset) == Ok::<ScanAction, UsageError>(ScanAction::Extract) {
        after_payload(offered, item.hash, item.size)
    } else {
        offered
    }
}

/// The scan of `total` announced entries after `items` went through it.
pub open spec fn scanned(total: nat, items: Seq<ScanItem>) -> ScanState
    decreases items.len(),
{
    if items.len() == 0 {
        scan_start(total)
    } else {
        scan_step(scanned(total, items.drop_last()), items.last())
    }
}

/// The offsets of the entries, in their order.
pub open spec fn item_offsets(items: Seq<ScanItem>) -> Seq<u64> {
    items.map_values(|item: ScanItem| item.offset)
}

/// The paths of all rows, row after row.
pub open spec fn all_files(table: Seq<Row>) -> Seq<Seq<char>>
    decreases table.len(),
{
    if table.len() == 0 {
        Seq::<Seq<char>>::empty()
    } else {
        all_files(table.drop_last()) + table.last().files
    }
}

/// The paths of the entries, in their order.
pub open spec fn item_paths(items: Seq<ScanItem>) -> Seq<Seq<char>> {
    items.map_values(|item: ScanItem| item.path)
}

proof fn lemma_files_with_path(table: Seq<Row>, at: int, path: Seq<char>)
    requires
        0 <= at < table.len(),
    ensures
        all_files(
            table.update(at, Row { files: table[at].files.push(path), ..table[at] }),
        ).to_multiset() == all_files(table).to_multiset().insert(path),
    decreases table.len(),
{
    let changed = table.update(at, Row { files: table[at].files.push(path), ..table[at] });
    let front = table.drop_last();
    if at == table.len() - 1 {
        assert(changed.drop_last() =~= front);
        assert(all_files(changed) =~= all_files(table).push(path));
        to_multiset_build(all_files(table), path);
    } else {
        let changed_front = front.update(at, Row { files: front[at].files.push(path), ..front[at] });
        assert(changed.drop_last() =~= changed_front);
        lemma_files_with_path(front, at, path);
        lemma_multiset_commutative(all_files(changed_front), table.last().files);
        lemma_multiset_commutative(all_files(front), table.last().files);
        assert(all_files(changed).to_multiset() =~= all_files(table).to_multiset().insert(path));
    }
}

proof fn lemma_files_recorded(table: Seq<Row>, hash: Seq<char>, size: nat, path: Seq<char>)
    ensures
        all_files(recorded(table, hash, size, path)).to_multiset() == all_files(
            table,
        ).to_multiset().insert(path),
        recorded(table, hash, size, path).len() <= table.len() + 1,
        distinct_hashes(table) ==> distinct_hashes(recorded(table, hash, size, path)),
{
    let after = recorded(table, hash, size, path);
    if has_hash(table, hash) {
        lemma_files_with_path(table, row_of(table, hash), path);
        assert forall|i: int, j: int| 0 <= i < j < after.len() && distinct_hashes(
            table,
        ) implies #[trigger] after[i].hash != #[trigger] after[j].hash by {
            assert(after[i].hash == table[i].hash);
            assert(after[j].hash == table[j].hash);
        }
    } else {
        assert(after.drop_last() =~= table);
        assert(all_files(after) =~= all_files(table).push(path));
        to_multiset_build(all_files(table), path);
        assert forall|i: int, j: int| 0 <= i < j < after.len() && distinct_hashes(
            table,
        ) implies #[trigger] after[i].hash != #[trigger] after[j].hash by {
            if j < table.len() {
                assert(after[i].hash == table[i].hash);
                assert(after[j].hash == table[j].hash);
            } else {
                assert(table[i].hash != hash);
            }
        }
    }
}

proof fn lemma_files_skipped(table: Seq<Row>, hash: Seq<char>, path: Seq<char>)
    requires
        has_hash(table, hash),
    ensures
        all_files(with_path(table, hash, path)).to_multiset() == all_files(
            table,
        ).to_multiset().insert(path),
        with_path(table, hash, path).len() == table.len(),
        distinct_hashes(table) ==> distinct_hashes(with_path(table, hash, path)),
{
    let after = with_path(table, hash, path);
    lemma_files_with_path(table, row_of(table, hash), path);
    assert forall|i: int, j: int| 0 <= i < j < after.len() && distinct_hashes(
        table,
    ) implies #[trigger] after[i].hash != #[trigger] after[j].hash by {
        assert(after[i].hash == table[i].hash);
        assert(after[j].hash == table[j].hash);
    }
}

/// What a scan has come to after any run of entries that fits under the
/// announced number: it went by the rules, no entry waits, the entry
/// extracted last lies at the offset of the last entry, and the table holds
/// one path for each entry.
pub proof fn lemma_scanned(total: nat, items: Seq<ScanItem>)
    requires
        items.len() <= total,
    ensures
        scan_ok(scanned(total, items)),
        scanned(total, items).total == total,
        scanned(total, items).seen == items.len(),
        scanned(total, items).pending is None,
        scanned(total, items).extracted + repeat_count(item_offsets(items)) == items.len(),
        scanned(total, items).table.len() <= scanned(total, items).extracted,
        match scanned(total, items).last {
            Some(l) => items.len() > 0 && l.0 == items.last().offset,
            None => items.len() == 0,
        },
        all_files(scanned(total, items).table).to_multiset() == item_paths(items).to_multiset(),
    decreases items.len(),
{
    if items.len() == 0 {
        assert(item_paths(items) =~= Seq::<Seq<char>>::empty());
    } else {
        let front = items.drop_last();
        let item = items.last();
        let before = scanned(total, front);
        lemma_scanned(total, front);
        assert(item_paths(items) =~= item_paths(front).push(item.path));
        assert(item_offsets(items).drop_last() =~= item_offsets(front));
        to_multiset_build(item_paths(front), item.path);
        if front.len() > 0 {
            assert(front.last() == items[items.len() - 2]);
        }
        if offer_outcome(before, item.offset) == Ok::<ScanAction, UsageError>(ScanAction::Skip) {
            lemma_files_skipped(before.table, last_hash(before), item.path);
            lemma_with_path_keeps(before.table, last_hash(before), item.path, last_hash(before));
            assert(repeats(item_offsets(items), items.len() - 1));
        } else {
            assert(offer_outcome(before, item.offset) == Ok::<ScanAction, UsageError>(
                ScanAction::Extract,
            ));
            lemma_files_recorded(before.table, item.hash, item.size, item.path);
            lemma_recorded_has(before.table, item.hash, item.size, item.path);
            assert(!repeats(item_offsets(items), items.len() - 1));
        }
    }
}

/// Of `N` entries, of which `M` lie at the offset of the entry before them,
/// exactly `N - M` are extracted, and the table has at most that many rows;
/// the first entry is always extracted.
pub proof fn lemma_one_extraction_per_offset(total: nat, items: Seq<ScanItem>)
    requires
        items.len() <= total,
    ensures
        scanned(total, items).extracted == items.len() - repeat_count(item_offsets(items)),
        scanned(total, items).table.len() <= items.len() - repeat_count(item_offsets(items)),
        items.len() > 0 ==> scanned(total, items).extracted >= 1,
{
    lemma_scanned(total, items);
    lemma_repeat_count_bound(item_offsets(items));
}

/// Every entry's path stands in the table, extracted or not: the paths of
/// all rows are the paths of all entries, each as often as it was met.
pub proof fn lemma_every_path_recorded(total: nat, items: Seq<ScanItem>)
    requires
        items.len() <= total,
    ensures
        all_files(scanned(total, items).table).to_multiset() == item_paths(items).to_multiset(),
        forall|i: int|
            0 <= i < items.len() ==> all_files(scanned(total, items).table).contains(
                #[trigger] items[i].path,
            ),
{
    lemma_scanned(total, items);
    let files = all_files(scanned(total, items).table);
    let paths = item_paths(items);
    assert forall|i: int| 0 <= i < items.len() implies files.contains(#[trigger] items[i].path) by {
        assert(paths[i] == items[i].path);
        assert(paths.contains(items[i].path));
        to_multiset_contains(paths, items[i].path);
        to_multiset_contains(files, items[i].path);
    }
}

} // verus!
