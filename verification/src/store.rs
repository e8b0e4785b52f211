//! The document store: the single source of truth for the current full
//! text of each open document, keyed by its URI.
//!
//! Logically the store is a map from key to text, last write wins per key.
//! It is kept as a vector of entries with pairwise distinct keys; its view
//! is the map those entries denote.

use vstd::prelude::*;

verus! {

/// Maps a URI-like key to the document's current full text.
pub struct DocStore {
    entries: Vec<(String, String)>,
}

/// The map denoted by a sequence of key/text entries, later entries
/// winning (with distinct keys the order does not matter).
pub open spec fn map_of(entries: Seq<(String, String)>) -> Map<Seq<char>, Seq<char>>
    decreases entries.len(),
{
    if entries.len() == 0 {
        Map::empty()
    } else {
        map_of(entries.drop_last()).insert(entries.last().0@, entries.last().1@)
    }
}

/// Pairwise distinct keys.
pub open spec fn keys_distinct(entries: Seq<(String, String)>) -> bool {
    forall|i: int, j: int|
        0 <= i < j < entries.len() ==> entries[i].0@ != entries[j].0@
}

impl View for DocStore {
    type V = Map<Seq<char>, Seq<char>>;

    closed spec fn view(&self) -> Map<Seq<char>, Seq<char>> {
        map_of(self.entries@)
    }
}

proof fn lemma_map_of_contains(entries: Seq<(String, String)>, k: Seq<char>)
    ensures
        map_of(entries).contains_key(k) <==> exists|i: int|
            0 <= i < entries.len() && entries[i].0@ == k,
    decreases entries.len(),
{
    if entries.len() > 0 {
        lemma_map_of_contains(entries.drop_last(), k);
        if entries.last().0@ != k && map_of(entries).contains_key(k) {
            let i = choose|i: int| 0 <= i < entries.drop_last().len()
                && entries.drop_last()[i].0@ == k;
            assert(entries[i].0@ == k);
        }
        if exists|i: int| 0 <= i < entries.len() && entries[i].0@ == k {
            let i = choose|i: int| 0 <= i < entries.len() && entries[i].0@ == k;
            if i < entries.len() - 1 {
                assert(entries.drop_last()[i].0@ == k);
            }
        }
    }
}

proof fn lemma_map_of_at(entries: Seq<(String, String)>, i: int)
    requires
        keys_distinct(entries),
        0 <= i < entries.len(),
    ensures
        map_of(entries).contains_key(entries[i].0@),
        map_of(entries)[entries[i].0@] == entries[i].1@,
    decreases entries.len(),
{
    if i == entries.len() - 1 {
        lemma_map_of_contains(entries, entries[i].0@);
    } else {
        assert(keys_distinct(entries.drop_last()));
        assert(entries.drop_last()[i] == entries[i]);
        lemma_map_of_at(entries.drop_last(), i);
    }
}

proof fn lemma_map_of_remove(entries: Seq<(String, String)>, i: int)
    requires
        keys_distinct(entries),
        0 <= i < entries.len(),
    ensures
        map_of(entries.remove(i)) =~= map_of(entries).remove(entries[i].0@),
    decreases entries.len(),
{
    let k = entries[i].0@;
    if i == entries.len() - 1 {
        assert(entries.remove(i) =~= entries.drop_last());
        lemma_map_of_contains(entries.drop_last(), k);
        assert(forall|j: int| 0 <= j < entries.drop_last().len()
            ==> entries.drop_last()[j].0@ != k);
        assert(!map_of(entries.drop_last()).contains_key(k));
    } else {
        assert(keys_distinct(entries.drop_last()));
        lemma_map_of_remove(entries.drop_last(), i);
        assert(entries.remove(i).drop_last() =~= entries.drop_last().remove(i));
        assert(entries.remove(i).last() == entries.last());
    }
}

impl DocStore {
    /// Well-formed: no key occurs twice.
    pub closed spec fn wf(&self) -> bool {
        keys_distinct(self.entries@)
    }

    /// An empty store.
    pub fn new() -> (r: DocStore)
        ensures
            r.wf(),
            r@ == Map::<Seq<char>, Seq<char>>::empty(),
    {
        DocStore { entries: Vec::new() }
    }

    /// The index of the entry holding `id`, if any.
    fn find(&self, id: &String) -> (r: Option<usize>)
        requires
            self.wf(),
        ensures
            match r {
                Some(i) => i < self.entries@.len() && self.entries@[i as int].0@ == id@,
                None => forall|i: int|
                    0 <= i < self.entries@.len() ==> self.entries@[i].0@ != id@,
            },
    {
        let n = self.entries.len();
        for i in 0..n
            invariant
                n == self.entries@.len(),
                forall|j: int| 0 <= j < i ==> self.entries@[j].0@ != id@,
        {
            if self.entries[i].0 == *id {
                return Some(i);
            }
        }
        None
    }

    /// Inserts or replaces: afterwards `id` maps to `text`.
    pub fn put(&mut self, id: String, text: String)
        requires
            old(self).wf(),
        ensures
            final(self).wf(),
            final(self)@ == old(self)@.insert(id@, text@),
    {
        match self.find(&id) {
            Some(i) => {
                proof {
                    lemma_map_of_remove(self.entries@, i as int);
                }
                self.entries.remove(i);
                proof {
                    assert(self@ =~= old(self)@.remove(id@));
                }
            },
            None => {
                proof {
                    lemma_map_of_contains(self.entries@, id@);
                    assert(old(self)@.remove(id@) =~= old(self)@);
                }
            },
        }
        let ghost pre = self.entries@;
        proof {
            lemma_map_of_contains(pre, id@);
            assert(!map_of(pre).contains_key(id@));
        }
        self.entries.push((id, text));
        proof {
            assert(self.entries@.drop_last() =~= pre);
            assert(self@ =~= old(self)@.insert(self.entries@.last().0@, self.entries@.last().1@));
        }
    }

    /// The current text of `id`, or `None` if it was never opened or has
    /// been closed.  Never fails: absence is a normal outcome.
    pub fn get(&self, id: &String) -> (r: Option<String>)
        requires
            self.wf(),
        ensures
            match r {
                Some(text) => self@.contains_key(id@) && self@[id@] == text@,
                None => !self@.contains_key(id@),
            },
    {
        match self.find(id) {
            Some(i) => {
                proof {
                    lemma_map_of_at(self.entries@, i as int);
                }
                Some(self.entries[i].1.clone())
            },
            None => {
                proof {
                    lemma_map_of_contains(self.entries@, id@);
                }
                None
            },
        }
    }

    /// Whether `id` is currently open.
    pub fn contains(&self, id: &String) -> (r: bool)
        requires
            self.wf(),
        ensures
            r == self@.contains_key(id@),
    {
        let found = self.find(id);
        proof {
            lemma_map_of_contains(self.entries@, id@);
        }
        found.is_some()
    }

    /// Deletes the entry for `id`; removing an absent id is a no-op, not
    /// an error.
    pub fn remove(&mut self, id: &String)
        requires
            old(self).wf(),
        ensures
            final(self).wf(),
            final(self)@ == old(self)@.remove(id@),
    {
        match self.find(id) {
            Some(i) => {
                proof {
                    lemma_map_of_remove(self.entries@, i as int);
                }
                self.entries.remove(i);
                proof {
                    assert(self@ =~= old(self)@.remove(id@));
                }
            },
            None => {
                proof {
                    lemma_map_of_contains(self.entries@, id@);
                    assert(self@ =~= old(self)@.remove(id@));
                }
            },
        }
    }
}

} // verus!
