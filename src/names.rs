//! A set of distinct strings (user ids or song titles), kept in insertion order.
use vstd::prelude::*;
use crate::title::same_title;

verus! {

/// The character sequences of a sequence of strings.
pub open spec fn names(v: Seq<String>) -> Seq<Seq<char>> {
    v.map_values(|s: String| s@)
}

/// A set of strings without repeats.
pub struct NameSet {
    pub items: Vec<String>,
}

impl View for NameSet {
    type V = Set<Seq<char>>;

    open spec fn view(&self) -> Set<Seq<char>> {
        names(self.items@).to_set()
    }
}

impl NameSet {
    /// No string is held twice.
    pub open spec fn wf(&self) -> bool {
        names(self.items@).no_duplicates()
    }

    pub fn new() -> (r: NameSet)
        ensures
            r.wf(),
            r@ == Set::<Seq<char>>::empty(),
            r.items@.len() == 0,
    {
        let r = NameSet { items: Vec::new() };
        assert(r@ =~= Set::<Seq<char>>::empty());
        r
    }

    /// The number of distinct strings held.
    pub fn len(&self) -> (r: usize)
        requires
            self.wf(),
        ensures
            r == self@.len(),
            r == self.items@.len(),
    {
        proof {
            names(self.items@).unique_seq_to_set();
        }
        self.items.len()
    }

    pub fn contains(&self, name: &str) -> (r: bool)
        ensures
            r == self@.contains(name@),
    {
        let mut i: usize = 0;
        while i < self.items.len()
            invariant
                i <= self.items@.len(),
                forall|j: int| 0 <= j < i ==> self.items@[j]@ != name@,
            decreases self.items@.len() - i,
        {
            if same_title(self.items[i].as_str(), name) {
                assert(names(self.items@)[i as int] == name@);
                return true;
            }
            i = i + 1;
        }
        proof {
            if self@.contains(name@) {
                let j = choose|j: int| 0 <= j < names(self.items@).len() && names(self.items@)[j] == name@;
                assert(self.items@[j]@ == name@);
            }
        }
        false
    }

    /// Adds `name` unless it is already held.
    pub fn insert(&mut self, name: String)
        requires
            old(self).wf(),
        ensures
            final(self).wf(),
            final(self)@ == old(self)@.insert(name@),
    {
        if !self.contains(name.as_str()) {
            proof {
                assert(names(self.items@.push(name)) =~= names(self.items@) + seq![name@]);
                Seq::lemma_to_set_insert_commutes(names(self.items@), name@);
            }
            self.items.push(name);
            assert(self@ =~= old(self)@.insert(name@));
        } else {
            assert(self@ =~= old(self)@.insert(name@));
        }
    }

    /// A copy without `name`.
    pub fn without(&self, name: &str) -> (r: NameSet)
        requires
            self.wf(),
        ensures
            r.wf(),
            r@ == self@.remove(name@),
    {
        let mut r = NameSet::new();
        let mut i: usize = 0;
        while i < self.items.len()
            invariant
                i <= self.items@.len(),
                r.wf(),
                r@ == names(self.items@.subrange(0, i as int)).to_set().remove(name@),
            decreases self.items@.len() - i,
        {
            proof {
                assert(names(self.items@.subrange(0, i + 1)) =~= names(self.items@.subrange(0, i as int))
                    + seq![self.items@[i as int]@]);
                Seq::lemma_to_set_insert_commutes(
                    names(self.items@.subrange(0, i as int)),
                    self.items@[i as int]@,
                );
            }
            if !same_title(self.items[i].as_str(), name) {
                r.insert(self.items[i].clone());
            }
            assert(r@ =~= names(self.items@.subrange(0, i + 1)).to_set().remove(name@));
            i = i + 1;
        }
        assert(self.items@.subrange(0, i as int) =~= self.items@);
        r
    }

    /// Adds every string of `other`.
    pub fn union_with(&mut self, other: &NameSet)
        requires
            old(self).wf(),
        ensures
            final(self).wf(),
            final(self)@ == old(self)@.union(other@),
    {
        let ghost start = self@;
        let mut i: usize = 0;
        proof {
            assert(names(other.items@.subrange(0, 0)).to_set() =~= Set::<Seq<char>>::empty());
            assert(self@ =~= start.union(Set::<Seq<char>>::empty()));
        }
        while i < other.items.len()
            invariant
                i <= other.items@.len(),
                self.wf(),
                self@ == start.union(names(other.items@.subrange(0, i as int)).to_set()),
            decreases other.items@.len() - i,
        {
            proof {
                assert(names(other.items@.subrange(0, i + 1)) =~= names(other.items@.subrange(0, i as int))
                    + seq![other.items@[i as int]@]);
                Seq::lemma_to_set_insert_commutes(
                    names(other.items@.subrange(0, i as int)),
                    other.items@[i as int]@,
                );
            }
            self.insert(other.items[i].clone());
            assert(self@ =~= start.union(names(other.items@.subrange(0, i + 1)).to_set()));
            i = i + 1;
        }
        assert(other.items@.subrange(0, i as int) =~= other.items@);
    }
}

} // verus!
