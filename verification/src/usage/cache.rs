use crate::keyed::{distinct_keys, has_key, key_place, lemma_stored_after_push, stored};
use crate::usage::report::{breakdown, new_bytes};
use crate::usage::{Record, UsageInfo};
use vstd::prelude::*;

verus! {

/// The records of the archives seen so far, each under the hash text of
/// the whole archive file. A record is put in once and never changed.
pub struct Cache {
    usage: Vec<(String, UsageInfo)>,
}

impl View for Cache {
    type V = Seq<(Seq<char>, Record)>;

    closed spec fn view(&self) -> Seq<(Seq<char>, Record)> {
        self.usage@.map_values(|e: (String, UsageInfo)| (e.0@, e.1@))
    }
}

impl Cache {
    /// No key stands twice.
    pub open spec fn wf(&self) -> bool {
        distinct_keys(self@)
    }

    /// A cache without records.
    pub fn new() -> (cache: Self)
        ensures
            cache.wf(),
            cache@ == Seq::<(Seq<char>, Record)>::empty(),
    {
        let cache = Cache { usage: Vec::new() };
        proof {
            assert(cache@ =~= Seq::<(Seq<char>, Record)>::empty());
        }
        cache
    }

    /// How many records are kept.
    pub fn len(&self) -> (count: usize)
        ensures
            count == self@.len(),
    {
        self.usage.len()
    }

    /// The key and the record at a place, in the order they were put in.
    pub fn entry(&self, at: usize) -> (entry: (&String, &UsageInfo))
        requires
            at < self@.len(),
        ensures
            (entry.0@, entry.1@) == self@[at as int],
    {
        let e = &self.usage[at];
        (&e.0, &e.1)
    }

    /// Looks for the record under `key`.
    pub fn lookup(&self, key: &String) -> (found: Option<&UsageInfo>)
        requires
            self.wf(),
        ensures
            match found {
                Some(info) => stored(self@, key@) == Some(info@),
                None => stored(self@, key@) is None,
            },
    {
        let mut at: usize = 0;
        while at < self.usage.len()
            invariant
                at <= self.usage@.len(),
                self.wf(),
                forall|j: int| 0 <= j < at ==> (#[trigger] self@[j]).0 != key@,
            decreases self.usage@.len() - at,
        {
            if self.usage[at].0 == *key {
                proof {
                    assert(self@[at as int].0 == key@);
                    let chosen = key_place(self@, key@);
                    if chosen < at {
                        assert(self@[chosen].0 != self@[at as int].0);
                    } else if chosen > at {
                        assert(self@[at as int].0 != self@[chosen].0);
                    }
                }
                return Some(&self.usage[at].1);
            }
            at = at + 1;
        }
        None
    }

    /// Puts a record under `key`, unless one is there already: a record
    /// that is kept is never replaced.
    pub fn insert(&mut self, key: String, info: UsageInfo) -> (inserted: bool)
        requires
            old(self).wf(),
        ensures
            final(self).wf(),
            inserted == !has_key(old(self)@, key@),
            final(self)@ == if inserted {
                old(self)@.push((key@, info@))
            } else {
                old(self)@
            },
    {
        if self.lookup(&key).is_some() {
            false
        } else {
            let ghost before = self@;
            self.usage.push((key, info));
            proof {
                assert(self@ =~= before.push((key@, info@)));
                assert forall|i: int, j: int| 0 <= i < j < self@.len() implies (#[trigger] self@[i]).0
                    != (#[trigger] self@[j]).0 by {
                    if j < before.len() {
                        assert(self@[i] == before[i]);
                        assert(self@[j] == before[j]);
                    } else {
                        assert(self@[i] == before[i]);
                    }
                }
            }
            true
        }
    }
}

impl Default for Cache {
    /// A cache without records.
    fn default() -> (cache: Self)
        ensures
            cache.wf(),
            cache@ == Seq::<(Seq<char>, Record)>::empty(),
    {
        Cache::new()
    }
}

/// A second run on an archive gives what the first gave: the report made
/// from the record that the first run put into the cache is the report
/// made from the scan itself.
pub proof fn lemma_cached_report_is_fresh_report(
    entries: Seq<(Seq<char>, Record)>,
    key: Seq<char>,
    record: Record,
    known: Set<Seq<char>>,
)
    requires
        distinct_keys(entries),
        !has_key(entries, key),
    ensures
        stored(entries.push((key, record)), key) matches Some(kept) && new_bytes(kept.table, known)
            == new_bytes(record.table, known) && breakdown(kept.table, known) == breakdown(
            record.table,
            known,
        ),
{
    lemma_stored_after_push(entries, key, record, key);
}

} // verus!
