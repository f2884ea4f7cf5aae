use crate::delta::DeltaProgress;
use crate::keyed::{distinct_keys, has_key, key_place, lemma_stored_after_push, stored};
use crate::text::texts;
use crate::text_set::{lemma_distinct, TextSet};
use crate::usage::report::known_set;
use vstd::hash_map::StringHashMap;
use vstd::prelude::*;

verus! {

/// The texts of a list of pairs of strings.
pub open spec fn pair_texts(pairs: Seq<(String, String)>) -> Seq<(Seq<char>, Seq<char>)> {
    pairs.map_values(|e: (String, String)| (e.0@, e.1@))
}

/// The referenced paths of a mod, each with the hash text of what it holds.
pub struct HashedPaths {
    total: usize,
    pairs: Vec<(String, String)>,
    by_path: StringHashMap<String>,
}

impl View for HashedPaths {
    type V = Seq<(Seq<char>, Seq<char>)>;

    closed spec fn view(&self) -> Seq<(Seq<char>, Seq<char>)> {
        pair_texts(self.pairs@)
    }
}

impl HashedPaths {
    /// No path stands twice, and the index finds each path's hash.
    pub closed spec fn wf(&self) -> bool {
        &&& distinct_keys(self@)
        &&& forall|p: Seq<char>| self.by_path@.contains_key(p) <==> has_key(self@, p)
        &&& forall|p: Seq<char>|
            self.by_path@.contains_key(p) ==> stored(self@, p) == Some(
                (#[trigger] self.by_path@[p])@,
            )
    }

    /// How many paths were announced.
    pub closed spec fn total(&self) -> usize {
        self.total
    }

    /// In a well-formed list no path stands twice.
    pub proof fn lemma_distinct_paths(&self)
        requires
            self.wf(),
        ensures
            distinct_keys(self@),
    {
    }

    /// A list for `total` paths, still empty.
    pub fn new(total: usize) -> (hashed: Self)
        ensures
            hashed.wf(),
            hashed.total() == total,
            hashed@ == Seq::<(Seq<char>, Seq<char>)>::empty(),
    {
        let hashed = HashedPaths { total, pairs: Vec::new(), by_path: StringHashMap::new() };
        proof {
            assert(hashed@ =~= Seq::<(Seq<char>, Seq<char>)>::empty());
        }
        hashed
    }

    /// Notes the hash of a path, unless the path has one already, and says
    /// what to report: the number of paths that came before this one.
    pub fn record(&mut self, path: String, hash: String) -> (progress: DeltaProgress)
        requires
            old(self).wf(),
        ensures
            final(self).wf(),
            final(self).total() == old(self).total(),
            final(self)@ == if has_key(old(self)@, path@) {
                old(self)@
            } else {
                old(self)@.push((path@, hash@))
            },
            progress == (DeltaProgress::HashingFiles {
                current: old(self)@.len() as usize,
                total: old(self).total(),
            }),
    {
        let progress = DeltaProgress::HashingFiles { current: self.pairs.len(), total: self.total };
        if !self.by_path.contains_key(path.as_str()) {
            let ghost before = self@;
            let ghost index_before = self.by_path@;
            proof {
                assert(!index_before.contains_key(path@));
                assert(!has_key(before, path@));
            }
            self.by_path.insert(path.clone(), hash.clone());
            self.pairs.push((path, hash));
            proof {
                let after = self@;
                let index = self.by_path@;
                assert(after =~= before.push((path@, hash@)));
                assert forall|p: Seq<char>| index.contains_key(p) <==> has_key(after, p) by {
                    lemma_stored_after_push(before, path@, hash@, p);
                    if p == path@ {
                    } else {
                        assert(index.contains_key(p) == index_before.contains_key(p));
                        assert(index_before.contains_key(p) <==> has_key(before, p));
                    }
                }
                assert forall|p: Seq<char>| index.contains_key(p) implies stored(after, p) == Some(
                    (#[trigger] index[p])@,
                ) by {
                    lemma_stored_after_push(before, path@, hash@, p);
                    if p == path@ {
                    } else {
                        assert(index_before.contains_key(p));
                        assert(stored(before, p) == Some(index_before[p]@));
                        assert(index[p] == index_before[p]);
                    }
                }
                lemma_stored_after_push(before, path@, hash@, path@);
            }
        }
        progress
    }

    /// The hash of a path, if it has one.
    pub fn lookup(&self, path: &str) -> (found: Option<&String>)
        requires
            self.wf(),
        ensures
            match found {
                Some(hash) => stored(self@, path@) == Some(hash@),
                None => !has_key(self@, path@),
            },
    {
        self.by_path.get(path)
    }

    /// The paths with their hashes, in the order in which they came.
    pub fn pairs(&self) -> (pairs: &Vec<(String, String)>)
        ensures
            pair_texts(pairs@) == self@,
    {
        &self.pairs
    }
}

/// The payloads that the remote side lacks: for each hash that it does not
/// have, once, the hash with the first path that holds it.
pub open spec fn fresh(pairs: Seq<(Seq<char>, Seq<char>)>, remote: Set<Seq<char>>) -> Seq<
    (Seq<char>, Seq<char>),
>
    decreases pairs.len(),
{
    if pairs.len() == 0 {
        Seq::<(Seq<char>, Seq<char>)>::empty()
    } else {
        let front = fresh(pairs.drop_last(), remote);
        let hash = pairs.last().1;
        if remote.contains(hash) || has_key(front, hash) {
            front
        } else {
            front.push((hash, pairs.last().0))
        }
    }
}

/// The hashes of all the files of a mod.
pub open spec fn local_hashes(pairs: Seq<(Seq<char>, Seq<char>)>) -> Set<Seq<char>> {
    Set::new(|h: Seq<char>| exists|i: int| 0 <= i < pairs.len() && (#[trigger] pairs[i]).1 == h)
}

/// The hashes of a list of payloads.
pub open spec fn payload_hashes(payloads: Seq<(Seq<char>, Seq<char>)>) -> Set<Seq<char>> {
    Set::new(|h: Seq<char>| has_key(payloads, h))
}

/// The new hashes are the local hashes without the remote ones, exactly;
/// none stands twice, and each comes with a path that holds it.
pub proof fn lemma_fresh(pairs: Seq<(Seq<char>, Seq<char>)>, remote: Set<Seq<char>>)
    ensures
        payload_hashes(fresh(pairs, remote)) == local_hashes(pairs).difference(remote),
        distinct_keys(fresh(pairs, remote)),
        forall|k: int|
            0 <= k < fresh(pairs, remote).len() ==> exists|i: int|
                0 <= i < pairs.len() && (#[trigger] pairs[i]) == ((
                    #[trigger] fresh(pairs, remote)[k]).1, fresh(pairs, remote)[k].0),
    decreases pairs.len(),
{
    let out = fresh(pairs, remote);
    if pairs.len() == 0 {
        assert(payload_hashes(out) =~= local_hashes(pairs).difference(remote));
    } else {
        let front_pairs = pairs.drop_last();
        let front = fresh(front_pairs, remote);
        let hash = pairs.last().1;
        lemma_fresh(front_pairs, remote);
        assert forall|h: Seq<char>| payload_hashes(out).contains(h) <==> local_hashes(
            pairs,
        ).difference(remote).contains(h) by {
            assert(payload_hashes(front).contains(h) <==> local_hashes(front_pairs).difference(
                remote,
            ).contains(h));
            if has_key(front, h) {
                let k = key_place(front, h);
                assert(out[k].0 == h);
            }
            if local_hashes(front_pairs).contains(h) {
                let i = choose|i: int| 0 <= i < front_pairs.len() && (#[trigger] front_pairs[i]).1 == h;
                assert(pairs[i].1 == h);
            }
            if h == hash {
                assert(pairs[pairs.len() - 1].1 == h);
                if !(remote.contains(hash) || has_key(front, hash)) {
                    assert(out[front.len() as int].0 == h);
                }
            }
            if has_key(out, h) && !has_key(front, h) {
                let k = key_place(out, h);
                if k < front.len() {
                    assert(front[k].0 == h);
                }
            }
            if local_hashes(pairs).contains(h) && !local_hashes(front_pairs).contains(h) {
                let i = choose|i: int| 0 <= i < pairs.len() && (#[trigger] pairs[i]).1 == h;
                if i < front_pairs.len() {
                    assert(front_pairs[i].1 == h);
                }
            }
        }
        assert(payload_hashes(out) =~= local_hashes(pairs).difference(remote));
        assert forall|i: int, j: int| 0 <= i < j < out.len() implies (#[trigger] out[i]).0 != (
        #[trigger] out[j]).0 by {
            if j < front.len() {
                assert(out[i] == front[i]);
                assert(out[j] == front[j]);
            } else {
                assert(out[i] == front[i]);
            }
        }
        assert forall|k: int| 0 <= k < out.len() implies exists|i: int|
            0 <= i < pairs.len() && (#[trigger] pairs[i]) == ((#[trigger] out[k]).1, out[k].0) by {
            if k < front.len() {
                assert(out[k] == front[k]);
                let i = choose|i: int|
                    0 <= i < front_pairs.len() && (#[trigger] front_pairs[i]) == (front[k].1, front[k].0);
                assert(pairs[i] == (out[k].1, out[k].0));
            } else {
                assert(pairs[pairs.len() - 1] == (out[k].1, out[k].0));
            }
        }
    }
}

/// Works out which payloads the remote side lacks.
pub fn new_payloads(hashed: &HashedPaths, remote: &Vec<String>) -> (payloads: Vec<(String, String)>)
    requires
        hashed.wf(),
    ensures
        pair_texts(payloads@) == fresh(hashed@, known_set(remote@)),
{
    let there = TextSet::from_list(remote);
    let mut picked = TextSet::new();
    let mut payloads: Vec<(String, String)> = Vec::new();
    let pairs = hashed.pairs();
    let ghost all = hashed@;
    let ghost have = known_set(remote@);
    proof {
        lemma_distinct(texts(remote@));
    }
    let mut at: usize = 0;
    while at < pairs.len()
        invariant
            at <= pairs@.len(),
            all == pair_texts(pairs@),
            have == known_set(remote@),
            there.wf(),
            forall|t: Seq<char>| there@.contains(t) <==> have.contains(t),
            picked.wf(),
            forall|t: Seq<char>| picked@.contains(t) <==> has_key(pair_texts(payloads@), t),
            pair_texts(payloads@) == fresh(all.take(at as int), have),
        decreases pairs@.len() - at,
    {
        let pair = &pairs[at];
        proof {
            assert(all.take(at + 1).drop_last() =~= all.take(at as int));
            assert(all.take(at + 1).last() == (pair.0@, pair.1@));
        }
        if !there.contains(pair.1.as_str()) && !picked.contains(pair.1.as_str()) {
            let ghost before = pair_texts(payloads@);
            let ghost picked_before = picked@;
            picked.insert(pair.1.clone());
            payloads.push((pair.1.clone(), pair.0.clone()));
            proof {
                let after = pair_texts(payloads@);
                assert(after =~= before.push((pair.1@, pair.0@)));
                assert forall|t: Seq<char>| picked@.contains(t) <==> has_key(after, t) by {
                    assert(picked_before.contains(t) <==> has_key(before, t));
                    if has_key(before, t) {
                        let k = key_place(before, t);
                        assert(after[k].0 == t);
                    }
                    if picked_before.contains(t) {
                        let k = choose|k: int| 0 <= k < picked_before.len() && picked_before[k] == t;
                        assert(picked@[k] == t);
                    }
                    if t == pair.1@ {
                        assert(after[before.len() as int].0 == t);
                        assert(picked@[picked_before.len() as int] == t);
                    }
                    if has_key(after, t) && !has_key(before, t) {
                        let k = key_place(after, t);
                        if k < before.len() {
                            assert(before[k].0 == t);
                        }
                    }
                    if picked@.contains(t) && !picked_before.contains(t) {
                        let k = choose|k: int| 0 <= k < picked@.len() && picked@[k] == t;
                        if k < picked_before.len() {
                            assert(picked_before[k] == t);
                        }
                    }
                }
            }
        }
        at = at + 1;
    }
    proof {
        assert(all.take(all.len() as int) =~= all);
    }
    payloads
}

} // verus!
