use vstd::hash_map::StringHashMap;
use vstd::prelude::*;

use crate::text::views;

verus! {

broadcast use vstd::hash_map::group_hash_map_axioms;

/// A frequency mapping: distinct text keys, each with its count.
///
/// Besides the counts it keeps the keys in the order in which they were
/// first added, so that the mapping can be listed.
pub struct Frequencies {
    counts: StringHashMap<usize>,
    keys: Vec<String>,
}

impl View for Frequencies {
    type V = Map<Seq<char>, nat>;

    closed spec fn view(&self) -> Map<Seq<char>, nat> {
        Map::new(
            |k: Seq<char>| self.counts@.contains_key(k),
            |k: Seq<char>| self.counts@[k] as nat,
        )
    }
}

impl Frequencies {
    /// The keys in the order of their first addition.
    pub closed spec fn key_order(&self) -> Seq<Seq<char>> {
        views(self.keys@)
    }

    /// The keys are listed once each, and they are the keys of the counts.
    pub closed spec fn wf(&self) -> bool {
        &&& self.key_order().no_duplicates()
        &&& forall|k: Seq<char>| self.counts@.contains_key(k) <==> self.key_order().contains(k)
    }

    /// The listed keys are distinct and are exactly the keys of the mapping.
    pub proof fn lemma_key_order(&self)
        requires
            self.wf(),
        ensures
            self.key_order().no_duplicates(),
            self.key_order().to_set() == self@.dom(),
            self.key_order().len() == self@.dom().len(),
    {
        assert(self.key_order().to_set() =~= self@.dom());
        self.key_order().unique_seq_to_set();
    }

    /// An empty mapping.
    pub fn new() -> (r: Self)
        ensures
            r.wf(),
            r@ == Map::<Seq<char>, nat>::empty(),
            r.key_order() == Seq::<Seq<char>>::empty(),
    {
        let r = Frequencies { counts: StringHashMap::new(), keys: Vec::new() };
        assert(r@ =~= Map::<Seq<char>, nat>::empty());
        assert(r.key_order() =~= Seq::<Seq<char>>::empty());
        r
    }

    /// Adds one occurrence of `key`.
    pub fn add(&mut self, key: String)
        requires
            old(self).wf(),
            old(self)@.contains_key(key@) ==> old(self)@[key@] < usize::MAX,
        ensures
            final(self).wf(),
            final(self)@ == old(self)@.insert(
                key@,
                if old(self)@.contains_key(key@) {
                    old(self)@[key@] + 1
                } else {
                    1
                },
            ),
    {
        match self.counts.get(key.as_str()) {
            Some(c) => {
                let n = *c + 1;
                self.counts.insert(key, n);
                assert(self.key_order() == old(self).key_order());
                assert forall|k: Seq<char>|
                    self.counts@.contains_key(k) <==> self.key_order().contains(k) by {
                    assert(self.counts@.contains_key(k) == old(self).counts@.contains_key(k));
                }
            },
            None => {
                let copy = key.clone();
                let ghost k0 = key@;
                self.counts.insert(key, 1);
                self.keys.push(copy);
                let ghost ko = old(self).key_order();
                assert(self.key_order() == ko.push(k0));
                assert(!ko.contains(k0));
                assert forall|i: int, j: int|
                    0 <= i < j < self.key_order().len() implies self.key_order()[i]
                        != self.key_order()[j] by {
                    if j == self.key_order().len() - 1 {
                        assert(ko[i] == self.key_order()[i]);
                    }
                }
                assert forall|k: Seq<char>|
                    self.counts@.contains_key(k) <==> self.key_order().contains(k) by {
                    if k == k0 {
                        assert(self.key_order()[ko.len() as int] == k0);
                    } else {
                        if ko.contains(k) {
                            let i = choose|i: int| 0 <= i < ko.len() && ko[i] == k;
                            assert(self.key_order()[i] == k);
                        }
                        if self.key_order().contains(k) {
                            let i = choose|i: int|
                                0 <= i < self.key_order().len() && self.key_order()[i] == k;
                            assert(ko[i] == k);
                        }
                    }
                }
            },
        }
        assert(self@ =~= old(self)@.insert(
            key@,
            if old(self)@.contains_key(key@) {
                old(self)@[key@] + 1
            } else {
                1
            },
        ));
    }

    /// The count of `key`, if it is a key.
    pub fn get(&self, key: &str) -> (r: Option<usize>)
        ensures
            match r {
                Some(n) => self@.contains_key(key@) && n as nat == self@[key@],
                None => !self@.contains_key(key@),
            },
    {
        match self.counts.get(key) {
            Some(c) => Some(*c),
            None => None,
        }
    }

    /// The number of distinct keys.
    pub fn len(&self) -> (r: usize)
        ensures
            r == self@.dom().len(),
    {
        assert(self@.dom() =~= self.counts@.dom());
        self.counts.len()
    }

    /// The keys with their counts, in the order of first addition.
    pub fn entries(&self) -> (r: Vec<(String, usize)>)
        requires
            self.wf(),
        ensures
            r@.len() == self.key_order().len(),
            forall|i: int|
                0 <= i < r@.len() ==> (#[trigger] r@[i]).0@ == self.key_order()[i]
                    && r@[i].1 as nat == self@[self.key_order()[i]],
    {
        let mut r: Vec<(String, usize)> = Vec::new();
        let mut i: usize = 0;
        while i < self.keys.len()
            invariant
                self.wf(),
                i <= self.keys@.len(),
                r@.len() == i,
                forall|j: int|
                    0 <= j < i ==> (#[trigger] r@[j]).0@ == self.key_order()[j] && r@[j].1 as nat
                        == self@[self.key_order()[j]],
            decreases self.keys@.len() - i,
        {
            let k = self.keys[i].clone();
            assert(self.key_order().contains(k@)) by {
                assert(self.key_order()[i as int] == k@);
            }
            let n = match self.counts.get(k.as_str()) {
                Some(c) => *c,
                None => 0,
            };
            r.push((k, n));
            i = i + 1;
        }
        r
    }
}

} // verus!
