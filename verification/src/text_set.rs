use crate::text::texts;
use vstd::hash_map::StringHashMap;
use vstd::prelude::*;

verus! {

/// `list` with `text` at its end, unless it holds `text` already.
pub open spec fn with_text(list: Seq<Seq<char>>, text: Seq<char>) -> Seq<Seq<char>> {
    if list.contains(text) {
        list
    } else {
        list.push(text)
    }
}

/// The texts of `list` without repetition, each where it stands first.
pub open spec fn distinct(list: Seq<Seq<char>>) -> Seq<Seq<char>>
    decreases list.len(),
{
    if list.len() == 0 {
        Seq::<Seq<char>>::empty()
    } else {
        with_text(distinct(list.drop_last()), list.last())
    }
}

/// `distinct` keeps every text, adds none, and repeats none.
pub proof fn lemma_distinct(list: Seq<Seq<char>>)
    ensures
        distinct(list).no_duplicates(),
        forall|t: Seq<char>| distinct(list).contains(t) <==> list.contains(t),
    decreases list.len(),
{
    if list.len() > 0 {
        let front = list.drop_last();
        let last = list.last();
        let before = distinct(front);
        let after = distinct(list);
        lemma_distinct(front);
        assert forall|t: Seq<char>| after.contains(t) <==> list.contains(t) by {
            assert(before.contains(t) <==> front.contains(t));
            if front.contains(t) {
                let j = choose|j: int| 0 <= j < front.len() && front[j] == t;
                assert(list[j] == t);
            }
            if before.contains(t) {
                let i = choose|i: int| 0 <= i < before.len() && before[i] == t;
                assert(after[i] == t);
            }
            if t == last {
                assert(list[list.len() - 1] == t);
                if !before.contains(last) {
                    assert(after[before.len() as int] == t);
                }
            }
            if after.contains(t) && !before.contains(t) {
                let i = choose|i: int| 0 <= i < after.len() && after[i] == t;
                if i < before.len() {
                    assert(before[i] == t);
                }
            }
            if list.contains(t) && !front.contains(t) {
                let j = choose|j: int| 0 <= j < list.len() && list[j] == t;
                if j < front.len() {
                    assert(front[j] == t);
                }
            }
        }
        assert forall|i: int, j: int|
            0 <= i < after.len() && 0 <= j < after.len() && i != j implies after[i] != after[j] by {
            if i < before.len() && j < before.len() {
                assert(before[i] != before[j]);
            } else if i < before.len() {
                assert(before.contains(before[i]));
            } else if j < before.len() {
                assert(before.contains(before[j]));
            }
        }
    }
}

/// A set of strings that remembers the order in which they came.
pub struct TextSet {
    items: Vec<String>,
    index: StringHashMap<bool>,
}

impl View for TextSet {
    type V = Seq<Seq<char>>;

    closed spec fn view(&self) -> Seq<Seq<char>> {
        texts(self.items@)
    }
}

impl TextSet {
    /// The index knows exactly the texts that are held, and none is held
    /// twice.
    pub closed spec fn wf(&self) -> bool {
        &&& forall|t: Seq<char>| self.index@.contains_key(t) <==> texts(self.items@).contains(t)
        &&& texts(self.items@).no_duplicates()
    }

    /// A well-formed set holds no text twice.
    pub proof fn lemma_no_duplicates(&self)
        requires
            self.wf(),
        ensures
            self@.no_duplicates(),
    {
    }

    /// The empty set.
    pub fn new() -> (set: Self)
        ensures
            set.wf(),
            set@ == Seq::<Seq<char>>::empty(),
    {
        let set = TextSet { items: Vec::new(), index: StringHashMap::new() };
        proof {
            assert(texts(set.items@) =~= Seq::<Seq<char>>::empty());
        }
        set
    }

    /// The set of the strings of `list`.
    pub fn from_list(list: &Vec<String>) -> (set: Self)
        ensures
            set.wf(),
            set@ == distinct(texts(list@)),
    {
        let mut set = TextSet::new();
        let mut at: usize = 0;
        while at < list.len()
            invariant
                at <= list@.len(),
                set.wf(),
                set@ == distinct(texts(list@).take(at as int)),
            decreases list@.len() - at,
        {
            proof {
                assert(texts(list@).take(at + 1).drop_last() =~= texts(list@).take(at as int));
                assert(texts(list@).take(at + 1).last() == list@[at as int]@);
            }
            set.insert(list[at].clone());
            at = at + 1;
        }
        proof {
            assert(texts(list@).take(list@.len() as int) =~= texts(list@));
        }
        set
    }

    /// Whether `text` is in the set.
    pub fn contains(&self, text: &str) -> (found: bool)
        requires
            self.wf(),
        ensures
            found == self@.contains(text@),
    {
        self.index.contains_key(text)
    }

    /// Puts `text` into the set, at the end, unless it is there already.
    pub fn insert(&mut self, text: String) -> (added: bool)
        requires
            old(self).wf(),
        ensures
            final(self).wf(),
            added == !old(self)@.contains(text@),
            final(self)@ == with_text(old(self)@, text@),
    {
        if self.index.contains_key(text.as_str()) {
            false
        } else {
            let ghost before = texts(self.items@);
            self.index.insert(text.clone(), true);
            self.items.push(text);
            proof {
                let after = texts(self.items@);
                assert(after =~= before.push(text@));
                assert forall|t: Seq<char>| self.index@.contains_key(t) <==> after.contains(t) by {
                    if after.contains(t) {
                        let i = choose|i: int| 0 <= i < after.len() && after[i] == t;
                        if i < before.len() {
                            assert(before[i] == t);
                            assert(before.contains(t));
                        }
                    }
                    if self.index@.contains_key(t) {
                        if t == text@ {
                            assert(after[before.len() as int] == t);
                        } else {
                            assert(before.contains(t));
                            let i = choose|i: int| 0 <= i < before.len() && before[i] == t;
                            assert(after[i] == t);
                        }
                    }
                }
                assert forall|i: int, j: int|
                    0 <= i < after.len() && 0 <= j < after.len() && i != j implies after[i]
                    != after[j] by {
                    if i < before.len() && j < before.len() {
                        assert(before[i] != before[j]);
                    } else if i < before.len() {
                        assert(before.contains(before[i]));
                    } else if j < before.len() {
                        assert(before.contains(before[j]));
                    }
                }
            }
            true
        }
    }

    /// How many strings are in the set.
    pub fn len(&self) -> (count: usize)
        ensures
            count == self@.len(),
    {
        self.items.len()
    }

    /// The strings of the set, in the order in which they came.
    pub fn into_vec(self) -> (list: Vec<String>)
        ensures
            texts(list@) == self@,
    {
        self.items
    }
}

} // verus!
