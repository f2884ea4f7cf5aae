use crate::text::texts;
use vstd::hash_map::StringHashMap;
use vstd::prelude::*;

verus! {

/// One payload of an archive in the abstract: its hash text, its stored
/// size and the paths that hold it, in the order they were met.
pub ghost struct Row {
    pub hash: Seq<char>,
    pub size: nat,
    pub files: Seq<Seq<char>>,
}

/// One payload of an archive: its hash text, its stored size and the paths
/// that hold it.
pub struct HashEntry {
    pub hash: String,
    pub size: usize,
    pub files: Vec<String>,
}

impl View for HashEntry {
    type V = Row;

    open spec fn view(&self) -> Row {
        Row { hash: self.hash@, size: self.size as nat, files: texts(self.files@) }
    }
}

/// The rows that a table of entries stands for.
pub open spec fn rows(table: Seq<HashEntry>) -> Seq<Row> {
    table.map_values(|e: HashEntry| e@)
}

/// Whether some row of the table is under `hash`.
pub open spec fn has_hash(table: Seq<Row>, hash: Seq<char>) -> bool {
    exists|i: int| 0 <= i < table.len() && #[trigger] table[i].hash == hash
}

/// The place of a row under `hash`, where the table has one.
pub open spec fn row_of(table: Seq<Row>, hash: Seq<char>) -> int {
    choose|i: int| 0 <= i < table.len() && #[trigger] table[i].hash == hash
}

/// No two rows of the table are under the same hash.
pub open spec fn distinct_hashes(table: Seq<Row>) -> bool {
    forall|i: int, j: int|
        0 <= i < j < table.len() ==> #[trigger] table[i].hash != #[trigger] table[j].hash
}

/// The table after `path` was added to the row under `hash`; a table
/// without such a row stays as it is.
pub open spec fn with_path(table: Seq<Row>, hash: Seq<char>, path: Seq<char>) -> Seq<Row> {
    if has_hash(table, hash) {
        let at = row_of(table, hash);
        table.update(at, Row { files: table[at].files.push(path), ..table[at] })
    } else {
        table
    }
}

/// The table after a payload with `hash` and `size` was met at `path`: a
/// known hash gains the path and keeps its size, a new hash gets a row of
/// its own at the end.
pub open spec fn recorded(table: Seq<Row>, hash: Seq<char>, size: nat, path: Seq<char>) -> Seq<
    Row,
> {
    if has_hash(table, hash) {
        with_path(table, hash, path)
    } else {
        table.push(Row { hash, size, files: seq![path] })
    }
}

/// The payloads of an archive, each once under its hash, in the order in
/// which the hashes were first met.
pub struct HashTable {
    entries: Vec<HashEntry>,
    index: StringHashMap<usize>,
}

impl View for HashTable {
    type V = Seq<Row>;

    closed spec fn view(&self) -> Seq<Row> {
        rows(self.entries@)
    }
}

impl HashTable {
    /// No hash stands twice, and the index finds the row of each hash.
    pub closed spec fn wf(&self) -> bool {
        &&& distinct_hashes(self@)
        &&& forall|h: Seq<char>|
            self.index@.contains_key(h) ==> (#[trigger] self.index@[h]) < self@.len()
                && self@[self.index@[h] as int].hash == h
        &&& forall|i: int|
            0 <= i < self@.len() ==> self.index@.contains_key((#[trigger] self@[i]).hash)
    }

    /// In a well-formed table no hash stands twice.
    pub proof fn lemma_distinct(&self)
        requires
            self.wf(),
        ensures
            distinct_hashes(self@),
    {
    }

    /// A table without rows.
    pub fn new() -> (table: Self)
        ensures
            table.wf(),
            table@ == Seq::<Row>::empty(),
    {
        let table = HashTable { entries: Vec::new(), index: StringHashMap::new() };
        proof {
            assert(table@ =~= Seq::<Row>::empty());
        }
        table
    }

    /// Looks for the row under `hash`.
    pub fn find(&self, hash: &str) -> (place: Option<usize>)
        requires
            self.wf(),
        ensures
            match place {
                Some(at) => has_hash(self@, hash@) && at == row_of(self@, hash@),
                None => !has_hash(self@, hash@),
            },
    {
        match self.index.get(hash) {
            Some(at) => {
                proof {
                    let rows = self@;
                    assert(rows[*at as int].hash == hash@);
                    let chosen = row_of(rows, hash@);
                    if chosen < *at {
                        assert(rows[chosen].hash != rows[*at as int].hash);
                    } else if chosen > *at {
                        assert(rows[*at as int].hash != rows[chosen].hash);
                    }
                }
                Some(*at)
            },
            None => {
                proof {
                    if has_hash(self@, hash@) {
                        let at = row_of(self@, hash@);
                        assert(self.index@.contains_key(self@[at].hash));
                    }
                }
                None
            },
        }
    }

    /// Adds `path` to the row under `hash`, if the table has one.
    pub fn add_path(&mut self, hash: &str, path: String) -> (found: bool)
        requires
            old(self).wf(),
        ensures
            final(self).wf(),
            found == has_hash(old(self)@, hash@),
            final(self)@ == with_path(old(self)@, hash@, path@),
    {
        match self.find(hash) {
            Some(at) => {
                let ghost before = self@;
                proof {
                    assert(before[at as int].hash == hash@);
                }
                self.entries[at].files.push(path);
                proof {
                    let after = self@;
                    let expect = with_path(before, hash@, path@);
                    assert(after.len() == expect.len());
                    assert forall|i: int| 0 <= i < after.len() implies after[i] == expect[i] by {
                        if i == at {
                            assert(texts(self.entries@[i].files@) =~= before[i].files.push(path@));
                        } else {
                            assert(self.entries@[i] == old(self).entries@[i]);
                        }
                    }
                    assert(after =~= expect);
                    assert forall|i: int| 0 <= i < after.len() implies (#[trigger] after[i]).hash
                        == before[i].hash by {}
                    assert forall|i: int, j: int| 0 <= i < j < after.len() implies #[trigger] after[i].hash
                        != #[trigger] after[j].hash by {
                        assert(before[i].hash != before[j].hash);
                    }
                    assert forall|i: int| 0 <= i < after.len() implies self.index@.contains_key(
                        (#[trigger] after[i]).hash,
                    ) by {
                        assert(self.index@.contains_key(before[i].hash));
                    }
                }
                true
            },
            None => false,
        }
    }

    /// Records a payload with `hash` and `size` met at `path`.
    pub fn record(&mut self, hash: String, size: usize, path: String)
        requires
            old(self).wf(),
        ensures
            final(self).wf(),
            final(self)@ == recorded(old(self)@, hash@, size as nat, path@),
    {
        let ghost before = self@;
        let ghost index_before = self.index@;
        if self.find(hash.as_str()).is_some() {
            self.add_path(hash.as_str(), path);
        } else {
            let at = self.entries.len();
            let mut files: Vec<String> = Vec::new();
            files.push(path);
            let entry = HashEntry { hash: hash.clone(), size, files };
            proof {
                assert(entry@.files =~= seq![path@]);
            }
            self.index.insert(hash, at);
            self.entries.push(entry);
            proof {
                let after = self@;
                assert(after =~= before.push(entry@));
                assert forall|i: int, j: int| 0 <= i < j < after.len() implies #[trigger] after[i].hash
                    != #[trigger] after[j].hash by {
                    if j < before.len() {
                        assert(after[i] == before[i]);
                        assert(after[j] == before[j]);
                    } else {
                        assert(after[i] == before[i]);
                        assert(before[i].hash != hash@);
                    }
                }
                assert forall|h: Seq<char>| self.index@.contains_key(h) implies (
                #[trigger] self.index@[h]) < after.len() && after[self.index@[h] as int].hash
                    == h by {
                    if h != hash@ {
                        assert(index_before.contains_key(h));
                        assert(self.index@[h] == index_before[h]);
                        assert(after[index_before[h] as int] == before[index_before[h] as int]);
                    }
                }
                assert forall|i: int| 0 <= i < after.len() implies self.index@.contains_key(
                    (#[trigger] after[i]).hash,
                ) by {
                    if i < before.len() {
                        assert(after[i] == before[i]);
                        assert(index_before.contains_key(before[i].hash));
                    }
                }
            }
        }
    }

    /// How many rows the table has.
    pub fn len(&self) -> (count: usize)
        ensures
            count == self@.len(),
    {
        self.entries.len()
    }

    /// Gives up the rows.
    pub fn into_entries(self) -> (entries: Vec<HashEntry>)
        ensures
            rows(entries@) == self@,
    {
        self.entries
    }
}

/// Adding a path to a row takes no hash out of the table.
pub proof fn lemma_with_path_keeps(
    table: Seq<Row>,
    hash: Seq<char>,
    path: Seq<char>,
    other: Seq<char>,
)
    requires
        has_hash(table, other),
    ensures
        has_hash(with_path(table, hash, path), other),
{
    let after = with_path(table, hash, path);
    let at = row_of(table, other);
    assert(after[at].hash == other);
}

/// A hash that was just recorded has a row.
pub proof fn lemma_recorded_has(table: Seq<Row>, hash: Seq<char>, size: nat, path: Seq<char>)
    ensures
        has_hash(recorded(table, hash, size, path), hash),
{
    let after = recorded(table, hash, size, path);
    if has_hash(table, hash) {
        let at = row_of(table, hash);
        assert(after[at].hash == hash);
    } else {
        assert(after[table.len() as int].hash == hash);
    }
}

} // verus!
