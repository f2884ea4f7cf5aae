use crate::text::texts;
use crate::text_set::{lemma_distinct, TextSet};
use crate::usage::table::{rows, HashEntry, Row};
use crate::usage::UsageError;
use vstd::prelude::*;

verus! {

/// One payload in a usage report in the abstract.
pub ghost struct Share {
    pub hash: Seq<char>,
    pub size: nat,
    pub files: Seq<Seq<char>>,
    pub counts: bool,
}

/// One payload in a usage report: its stored size, the paths that hold it,
/// and whether it counts towards the total.
pub struct Calculated {
    pub size: usize,
    pub files: Vec<String>,
    pub counts: bool,
}

/// A usage report: the bytes that are new, and every payload by its hash.
pub struct CalculatedUsage {
    pub total: usize,
    pub hashes: Vec<(String, Calculated)>,
}

/// What an entry of a report stands for.
pub open spec fn share_of(entry: (String, Calculated)) -> Share {
    Share {
        hash: entry.0@,
        size: entry.1.size as nat,
        files: texts(entry.1.files@),
        counts: entry.1.counts,
    }
}

/// What the entries of a report stand for.
pub open spec fn shares(entries: Seq<(String, Calculated)>) -> Seq<Share> {
    entries.map_values(|e: (String, Calculated)| share_of(e))
}

/// The set of the hashes that the caller already has.
pub open spec fn known_set(known: Seq<String>) -> Set<Seq<char>> {
    texts(known).to_set()
}

/// A row as it stands in a report: it counts unless its hash is known.
pub open spec fn share_for(row: Row, known: Set<Seq<char>>) -> Share {
    Share { hash: row.hash, size: row.size, files: row.files, counts: !known.contains(row.hash) }
}

/// The rows of a table as they stand in a report, in the table's order.
pub open spec fn breakdown(table: Seq<Row>, known: Set<Seq<char>>) -> Seq<Share> {
    table.map_values(|row: Row| share_for(row, known))
}

/// The sizes of the rows whose hash is not known, added up.
pub open spec fn new_bytes(table: Seq<Row>, known: Set<Seq<char>>) -> nat
    decreases table.len(),
{
    if table.len() == 0 {
        0
    } else if known.contains(table.last().hash) {
        new_bytes(table.drop_last(), known)
    } else {
        new_bytes(table.drop_last(), known) + table.last().size
    }
}

/// The sizes of the entries of a report that count, added up.
pub open spec fn counted_bytes(report: Seq<Share>) -> nat
    decreases report.len(),
{
    if report.len() == 0 {
        0
    } else if report.last().counts {
        counted_bytes(report.drop_last()) + report.last().size
    } else {
        counted_bytes(report.drop_last())
    }
}

/// The sizes of all rows, added up.
pub open spec fn all_bytes(table: Seq<Row>) -> nat
    decreases table.len(),
{
    if table.len() == 0 {
        0
    } else {
        all_bytes(table.drop_last()) + table.last().size
    }
}

/// The new bytes of the first rows of a table are no more than those of
/// the whole table.
pub proof fn lemma_new_bytes_grow(table: Seq<Row>, known: Set<Seq<char>>, upto: int)
    requires
        0 <= upto <= table.len(),
    ensures
        new_bytes(table.take(upto), known) <= new_bytes(table, known),
    decreases table.len() - upto,
{
    if upto == table.len() {
        assert(table.take(upto) =~= table);
    } else {
        lemma_new_bytes_grow(table, known, upto + 1);
        assert(table.take(upto + 1).drop_last() =~= table.take(upto));
    }
}

/// A copy of a list of strings.
pub fn copy_texts(list: &Vec<String>) -> (copy: Vec<String>)
    ensures
        texts(copy@) == texts(list@),
{
    let mut copy: Vec<String> = Vec::new();
    let mut at: usize = 0;
    while at < list.len()
        invariant
            at <= list@.len(),
            texts(copy@) == texts(list@.take(at as int)),
        decreases list@.len() - at,
    {
        let ghost before = texts(copy@);
        copy.push(list[at].clone());
        proof {
            assert(texts(copy@) =~= before.push(list@[at as int]@));
            assert(texts(list@.take(at + 1)) =~= texts(list@.take(at as int)).push(
                list@[at as int]@,
            ));
        }
        at = at + 1;
    }
    proof {
        assert(list@.take(list@.len() as int) =~= list@);
    }
    copy
}

/// The usage report of a table against the hashes the caller already has:
/// every row in the table's order, marked as counting unless its hash is
/// known, and the sizes of the counting rows added up. Fails with
/// `TotalTooLarge` exactly where that sum is more than a `usize` holds.
pub fn calculate(table: &Vec<HashEntry>, known: &Vec<String>) -> (outcome: Result<
    CalculatedUsage,
    UsageError,
>)
    ensures
        match outcome {
            Ok(usage) => {
                &&& usage.total == new_bytes(rows(table@), known_set(known@))
                &&& shares(usage.hashes@) == breakdown(rows(table@), known_set(known@))
                &&& usage.total == counted_bytes(shares(usage.hashes@))
            },
            Err(e) => {
                &&& e == UsageError::TotalTooLarge
                &&& new_bytes(rows(table@), known_set(known@)) > usize::MAX
            },
        },
{
    let index = TextSet::from_list(known);
    let ghost all = rows(table@);
    let ghost have = known_set(known@);
    proof {
        lemma_distinct(texts(known@));
    }
    let mut total: usize = 0;
    let mut hashes: Vec<(String, Calculated)> = Vec::new();
    let mut at: usize = 0;
    while at < table.len()
        invariant
            at <= table@.len(),
            all == rows(table@),
            have == known_set(known@),
            index.wf(),
            forall|t: Seq<char>| index@.contains(t) <==> have.contains(t),
            total == new_bytes(all.take(at as int), have),
            shares(hashes@) == breakdown(all.take(at as int), have),
        decreases table@.len() - at,
    {
        let entry = &table[at];
        proof {
            assert(entry@ == all[at as int]);
            assert(all.take(at + 1).drop_last() =~= all.take(at as int));
            assert(all.take(at + 1).last() == all[at as int]);
            lemma_new_bytes_grow(all, have, at + 1);
        }
        let counts = !index.contains(entry.hash.as_str());
        if counts {
            match total.checked_add(entry.size) {
                Some(sum) => {
                    total = sum;
                },
                None => {
                    return Err(UsageError::TotalTooLarge);
                },
            }
        }
        let ghost before = shares(hashes@);
        let item = (
            entry.hash.clone(),
            Calculated { size: entry.size, files: copy_texts(&entry.files), counts },
        );
        hashes.push(item);
        proof {
            assert(share_of(item) == share_for(all[at as int], have));
            assert(shares(hashes@) =~= before.push(share_of(item)));
            assert(breakdown(all.take(at + 1), have) =~= breakdown(all.take(at as int), have).push(
                share_for(all[at as int], have),
            ));
        }
        at = at + 1;
    }
    proof {
        assert(all.take(all.len() as int) =~= all);
        lemma_counted_is_new(all, have);
    }
    Ok(CalculatedUsage { total, hashes })
}

/// The bytes that a report counts are the new bytes of its table.
pub proof fn lemma_counted_is_new(table: Seq<Row>, known: Set<Seq<char>>)
    ensures
        counted_bytes(breakdown(table, known)) == new_bytes(table, known),
    decreases table.len(),
{
    if table.len() > 0 {
        lemma_counted_is_new(table.drop_last(), known);
        assert(breakdown(table, known).drop_last() =~= breakdown(table.drop_last(), known));
    }
}

/// Where the caller has nothing yet, every byte is new.
pub proof fn lemma_nothing_known(table: Seq<Row>)
    ensures
        new_bytes(table, Set::<Seq<char>>::empty()) == all_bytes(table),
    decreases table.len(),
{
    if table.len() > 0 {
        lemma_nothing_known(table.drop_last());
    }
}

/// In a report a row counts exactly when its hash is not known.
pub proof fn lemma_counts_unless_known(table: Seq<Row>, known: Set<Seq<char>>, at: int)
    requires
        0 <= at < table.len(),
    ensures
        breakdown(table, known)[at].counts == !known.contains(table[at].hash),
        breakdown(table, known)[at].hash == table[at].hash,
        breakdown(table, known)[at].size == table[at].size,
        breakdown(table, known)[at].files == table[at].files,
{
}

} // verus!
