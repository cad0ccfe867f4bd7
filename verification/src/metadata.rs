//! The metadata of an annotated board file: text keys with text values.

use vstd::prelude::*;
use vstd::string::*;
use crate::text::same_text;

verus! {

/// Keys with their values, each key at most once, in the order in which the
/// keys first came.
#[derive(Debug)]
pub struct Metadata {
    pub entries: Vec<(String, String)>,
}

impl View for Metadata {
    type V = Map<Seq<char>, Seq<char>>;

    open spec fn view(&self) -> Map<Seq<char>, Seq<char>> {
        Map::new(
            |key: Seq<char>| self.position(key) < self.entries@.len(),
            |key: Seq<char>| self.entries@[self.position(key)].1@,
        )
    }
}

impl Metadata {
    /// The index of the first entry under `key`, or the number of entries
    /// where there is none.
    pub open spec fn position(&self, key: Seq<char>) -> int {
        if exists|i: int| self.holds_at(i, key) {
            choose|i: int| self.holds_at(i, key)
        } else {
            self.entries@.len() as int
        }
    }

    /// Whether the entry at index `i` is under `key`.
    pub open spec fn holds_at(&self, i: int, key: Seq<char>) -> bool {
        0 <= i < self.entries@.len() && self.entries@[i].0@ == key
    }

    /// The keys, in the order of the entries.
    pub open spec fn keys(&self) -> Seq<Seq<char>> {
        Seq::new(self.entries@.len(), |i: int| self.entries@[i].0@)
    }

    /// Whether no key occurs twice.
    pub open spec fn wf(&self) -> bool {
        forall|i: int, j: int|
            0 <= i < j < self.entries@.len() ==> self.entries@[i].0@ != self.entries@[j].0@
    }

    /// Metadata without entries.
    pub fn new() -> (meta: Metadata)
        ensures
            meta.wf(),
            meta@ == Map::<Seq<char>, Seq<char>>::empty(),
            meta.entries@.len() == 0,
    {
        let meta = Metadata { entries: Vec::new() };
        assert(meta@ =~= Map::<Seq<char>, Seq<char>>::empty());
        meta
    }

    /// The index of the entry under `key`, or the number of entries where
    /// there is none.
    fn find(&self, key: &str) -> (at: usize)
        requires
            self.wf(),
        ensures
            at == self.position(key@),
            at <= self.entries@.len(),
            at < self.entries@.len() ==> self.holds_at(at as int, key@),
            at == self.entries@.len() ==> forall|j: int| !self.holds_at(j, key@),
    {
        let mut i: usize = 0;
        while i < self.entries.len()
            invariant
                0 <= i <= self.entries@.len(),
                self.wf(),
                forall|j: int| 0 <= j < i ==> !self.holds_at(j, key@),
            decreases self.entries@.len() - i,
        {
            if same_text(self.entries[i].0.as_str(), key) {
                assert(self.holds_at(i as int, key@));
                return i;
            }
            i += 1;
        }
        i
    }

    /// Puts `value` under `key`. A value that stood under the key is
    /// replaced; all other entries stay.
    pub fn insert(&mut self, key: String, value: String)
        requires
            old(self).wf(),
        ensures
            final(self).wf(),
            final(self)@ == old(self)@.insert(key@, value@),
    {
        let at = self.find(key.as_str());
        let ghost before = *self;
        let ghost k = key@;
        let ghost v = value@;
        if at < self.entries.len() {
            self.entries.set(at, (key, value));
        } else {
            self.entries.push((key, value));
        }
        proof {
            assert(self.holds_at(at as int, k));
            assert forall|i: int, j: int| 0 <= i < j < self.entries@.len() implies self.entries@[i].0@
                != self.entries@[j].0@ by {
                if j == before.entries@.len() {
                    assert(!before.holds_at(i, k));
                }
            }
            assert(self.wf());
            let p = self.position(k);
            assert(self.holds_at(p, k));
            assert(p == at);
            assert forall|i: int, other: Seq<char>| other != k implies (self.holds_at(i, other)
                <==> before.holds_at(i, other)) by {}
            assert forall|other: Seq<char>| other != k implies self.position(other)
                == before.position(other) || (self.position(other) == self.entries@.len()
                && before.position(other) == before.entries@.len()) by {
                if exists|i: int| before.holds_at(i, other) {
                    let i = choose|i: int| before.holds_at(i, other);
                    assert(self.holds_at(i, other));
                    let j = choose|j: int| self.holds_at(j, other);
                    assert(before.holds_at(j, other));
                    assert(i == j);
                } else {
                    if exists|j: int| self.holds_at(j, other) {
                        let j = choose|j: int| self.holds_at(j, other);
                        assert(before.holds_at(j, other));
                    }
                }
            }
            assert(self@ =~= before@.insert(k, v));
        }
    }

    /// The value under `key`, if there is one.
    pub fn get(&self, key: &str) -> (value: Option<String>)
        requires
            self.wf(),
        ensures
            value is Some <==> self@.contains_key(key@),
            value is Some ==> value->0@ == self@[key@],
    {
        let at = self.find(key);
        if at < self.entries.len() {
            Some(self.entries[at].1.clone())
        } else {
            None
        }
    }

    /// The number of keys.
    pub fn len(&self) -> (n: usize)
        requires
            self.wf(),
        ensures
            n == self.entries@.len(),
            n == self@.dom().len(),
    {
        proof {
            self.lemma_key_count();
        }
        self.entries.len()
    }

    /// There are as many keys as entries, and finitely many.
    pub proof fn lemma_key_count(&self)
        requires
            self.wf(),
        ensures
            self@.dom().finite(),
            self@.dom().len() == self.entries@.len(),
    {
        let keys = self.keys();
        assert(keys.no_duplicates());
        keys.unique_seq_to_set();
        vstd::seq_lib::seq_to_set_is_finite(keys);
        assert forall|key: Seq<char>| self@.dom().contains(key) <==> keys.to_set().contains(
            key,
        ) by {
            if self@.dom().contains(key) {
                let at = self.position(key);
                assert(self.holds_at(at, key));
                assert(keys[at] == key);
            }
            if keys.to_set().contains(key) {
                let i = choose|i: int| 0 <= i < keys.len() && keys[i] == key;
                assert(self.holds_at(i, key));
            }
        }
        assert(self@.dom() =~= keys.to_set());
    }
}

} // verus!
