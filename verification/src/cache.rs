//! The set of keys of the sequents that a search has failed on.

use vstd::prelude::*;
use crate::text::{same_texts, views};

verus! {

/// A set of keys, each a list of texts. The keys stand in a vector, none
/// twice: the verifier models a hash set only for keys whose hashing it
/// knows, which are the integers and `bool`, and a key here is a list of
/// strings.
pub struct FailureCache {
    keys: Vec<Vec<String>>,
}

impl View for FailureCache {
    type V = Set<Seq<Seq<char>>>;

    closed spec fn view(&self) -> Set<Seq<Seq<char>>> {
        Set::new(
            |k: Seq<Seq<char>>|
                exists|i: int| 0 <= i < self.keys.len() && views(#[trigger] self.keys[i]@) == k,
        )
    }
}

impl FailureCache {
    /// Whether no key is held twice. Every operation keeps this.
    pub closed spec fn distinct(&self) -> bool {
        forall|i: int, j: int|
            0 <= i < j < self.keys.len() ==> views(#[trigger] self.keys[i]@) != views(
                #[trigger] self.keys[j]@,
            )
    }

    /// Makes the empty set.
    pub fn new() -> (r: FailureCache)
        ensures
            r@ == Set::<Seq<Seq<char>>>::empty(),
            r.distinct(),
    {
        let r = FailureCache { keys: Vec::new() };
        assert(r@ =~= Set::<Seq<Seq<char>>>::empty());
        r
    }

    /// Tells whether the key is in the set.
    pub fn contains(&self, key: &Vec<String>) -> (r: bool)
        ensures
            r == self@.contains(views(key@)),
    {
        let mut i: usize = 0;
        while i < self.keys.len()
            invariant
                i <= self.keys.len(),
                forall|k: int| 0 <= k < i ==> views(#[trigger] self.keys[k]@) != views(key@),
            decreases self.keys.len() - i,
        {
            if same_texts(&self.keys[i], key) {
                return true;
            }
            i = i + 1;
        }
        false
    }

    /// Puts the key into the set, and tells whether it was new.
    pub fn insert(&mut self, key: Vec<String>) -> (r: bool)
        ensures
            final(self)@ == old(self)@.insert(views(key@)),
            r == !old(self)@.contains(views(key@)),
            old(self).distinct() ==> final(self).distinct(),
    {
        if self.contains(&key) {
            assert(self@ =~= self@.insert(views(key@)));
            false
        } else {
            let ghost before = self.keys@;
            let ghost added = views(key@);
            self.keys.push(key);
            assert forall|k: Seq<Seq<char>>| self@.contains(k) == old(self)@.insert(
                added,
            ).contains(k) by {
                if self@.contains(k) {
                    let i = choose|i: int|
                        0 <= i < self.keys.len() && views(#[trigger] self.keys[i]@) == k;
                    if i < before.len() {
                        assert(views(before[i]@) == k);
                    }
                }
                if old(self)@.contains(k) {
                    let i = choose|i: int|
                        0 <= i < before.len() && views(#[trigger] before[i]@) == k;
                    assert(views(self.keys[i]@) == k);
                }
                if k == added {
                    assert(views(self.keys[before.len() as int]@) == k);
                }
            }
            assert(self@ =~= old(self)@.insert(added));
            true
        }
    }

    /// Empties the set.
    pub fn clear(&mut self)
        ensures
            final(self)@ == Set::<Seq<Seq<char>>>::empty(),
            final(self).distinct(),
    {
        self.keys.clear();
        assert(self@ =~= Set::<Seq<Seq<char>>>::empty());
    }
}

} // verus!
