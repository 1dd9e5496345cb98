use vstd::prelude::*;

verus! {

/// A set of story flags. The vector may be read in any order; what counts is
/// which texts it holds.
pub struct KeySet {
    pub items: Vec<String>,
}

impl View for KeySet {
    type V = Set<Seq<char>>;

    open spec fn view(&self) -> Set<Seq<char>> {
        Set::new(|k: Seq<char>| exists|i: int| 0 <= i < self.items@.len() && #[trigger] self.items@[i]@ == k)
    }
}

impl KeySet {
    pub fn new() -> (r: KeySet)
        ensures
            r@ == Set::<Seq<char>>::empty(),
    {
        let r = KeySet { items: Vec::new() };
        assert(r@ =~= Set::<Seq<char>>::empty());
        r
    }

    pub fn from_vec(items: Vec<String>) -> (r: KeySet)
        ensures
            r.items@ == items@,
    {
        KeySet { items }
    }

    pub fn contains(&self, key: &String) -> (r: bool)
        ensures
            r == self@.contains(key@),
    {
        let mut i: usize = 0;
        while i < self.items.len()
            invariant
                i <= self.items.len(),
                forall|j: int| 0 <= j < i ==> #[trigger] self.items@[j]@ != key@,
            decreases self.items.len() - i,
        {
            if self.items[i] == *key {
                assert(self.items@[i as int]@ == key@);
                return true;
            }
            i = i + 1;
        }
        false
    }

    pub fn insert(&mut self, key: String)
        ensures
            final(self)@ == old(self)@.insert(key@),
    {
        if !self.contains(&key) {
            let ghost before = self.items@;
            self.items.push(key);
            proof {
                assert forall|k: Seq<char>| #[trigger] self@.contains(k) == old(self)@.insert(key@).contains(k) by {
                    if self@.contains(k) {
                        let i = choose|i: int| 0 <= i < self.items@.len() && #[trigger] self.items@[i]@ == k;
                        if i < before.len() {
                            assert(before[i]@ == k);
                        }
                    }
                    if old(self)@.contains(k) {
                        let i = choose|i: int| 0 <= i < before.len() && #[trigger] before[i]@ == k;
                        assert(self.items@[i]@ == k);
                    }
                    if k == key@ {
                        assert(self.items@[before.len() as int]@ == k);
                    }
                }
                assert(self@ =~= old(self)@.insert(key@));
            }
        } else {
            assert(self@ =~= old(self)@.insert(key@));
        }
    }

    pub fn remove(&mut self, key: &String)
        ensures
            final(self)@ == old(self)@.remove(key@),
    {
        let mut kept: Vec<String> = Vec::new();
        let mut i: usize = 0;
        while i < self.items.len()
            invariant
                i <= self.items.len(),
                forall|j: int| 0 <= j < kept@.len() ==> #[trigger] kept@[j]@ != key@,
                forall|j: int|
                    0 <= j < kept@.len() ==> exists|m: int|
                        0 <= m < i && #[trigger] self.items@[m]@ == (#[trigger] kept@[j])@,
                forall|m: int|
                    0 <= m < i && (#[trigger] self.items@[m])@ != key@ ==> exists|j: int|
                        0 <= j < kept@.len() && (#[trigger] kept@[j])@ == self.items@[m]@,
            decreases self.items.len() - i,
        {
            let ghost prev = kept@;
            if self.items[i] != *key {
                kept.push(self.items[i].clone());
                assert(kept@[kept@.len() - 1]@ == self.items@[i as int]@);
            }
            assert forall|m: int|
                0 <= m < i + 1 && (#[trigger] self.items@[m])@ != key@ implies exists|j: int|
                    0 <= j < kept@.len() && (#[trigger] kept@[j])@ == self.items@[m]@ by {
                if m < i {
                    let j = choose|j: int| 0 <= j < prev.len() && (#[trigger] prev[j])@ == self.items@[m]@;
                    assert(kept@[j] == prev[j]);
                } else {
                    assert(kept@[kept@.len() - 1]@ == self.items@[m]@);
                }
            }
            i = i + 1;
        }
        let ghost before = *self;
        self.items = kept;
        proof {
            assert forall|k: Seq<char>| #[trigger] self@.contains(k) == before@.remove(key@).contains(k) by {
                if self@.contains(k) {
                    let j = choose|j: int| 0 <= j < self.items@.len() && #[trigger] self.items@[j]@ == k;
                    let m = choose|m: int| 0 <= m < before.items@.len() && #[trigger] before.items@[m]@ == self.items@[j]@;
                    assert(before@.contains(k));
                }
                if before@.remove(key@).contains(k) {
                    let m = choose|m: int| 0 <= m < before.items@.len() && #[trigger] before.items@[m]@ == k;
                    let j = choose|j: int| 0 <= j < self.items@.len() && #[trigger] self.items@[j]@ == before.items@[m]@;
                    assert(self@.contains(k));
                }
            }
            assert(self@ =~= before@.remove(key@));
        }
    }

    /// Adds every key of `other`.
    pub fn extend(&mut self, other: &KeySet)
        ensures
            final(self)@ == old(self)@.union(other@),
    {
        let mut i: usize = 0;
        while i < other.items.len()
            invariant
                i <= other.items.len(),
                self@ == old(self)@.union(
                    Set::new(|k: Seq<char>| exists|j: int| 0 <= j < i && #[trigger] other.items@[j]@ == k),
                ),
            decreases other.items.len() - i,
        {
            let ghost prev = self@;
            self.insert(other.items[i].clone());
            assert(self@ =~= old(self)@.union(
                Set::new(|k: Seq<char>| exists|j: int| 0 <= j < i + 1 && #[trigger] other.items@[j]@ == k),
            )) by {
                assert forall|k: Seq<char>|
                    (exists|j: int| 0 <= j < i + 1 && #[trigger] other.items@[j]@ == k) implies
                    self@.contains(k) by {
                    let j = choose|j: int| 0 <= j < i + 1 && #[trigger] other.items@[j]@ == k;
                    if j < i {
                        assert(prev.contains(k));
                    }
                }
            }
            i = i + 1;
        }
        assert(self@ =~= old(self)@.union(other@));
    }

    /// Removes every key of `other`.
    pub fn remove_all(&mut self, other: &KeySet)
        ensures
            final(self)@ == old(self)@.difference(other@),
    {
        let mut i: usize = 0;
        while i < other.items.len()
            invariant
                i <= other.items.len(),
                self@ == old(self)@.difference(
                    Set::new(|k: Seq<char>| exists|j: int| 0 <= j < i && #[trigger] other.items@[j]@ == k),
                ),
            decreases other.items.len() - i,
        {
            let ghost prev = self@;
            self.remove(&other.items[i]);
            assert(self@ =~= old(self)@.difference(
                Set::new(|k: Seq<char>| exists|j: int| 0 <= j < i + 1 && #[trigger] other.items@[j]@ == k),
            )) by {
                assert forall|k: Seq<char>|
                    (exists|j: int| 0 <= j < i + 1 && #[trigger] other.items@[j]@ == k) implies
                    !self@.contains(k) by {
                    let j = choose|j: int| 0 <= j < i + 1 && #[trigger] other.items@[j]@ == k;
                    if j < i {
                        assert(!prev.contains(k));
                    }
                }
            }
            i = i + 1;
        }
        assert(self@ =~= old(self)@.difference(other@));
    }

    /// True when every key of `self` is in `other`.
    pub fn is_subset(&self, other: &KeySet) -> (r: bool)
        ensures
            r == self@.subset_of(other@),
    {
        let mut i: usize = 0;
        while i < self.items.len()
            invariant
                i <= self.items.len(),
                forall|j: int| 0 <= j < i ==> other@.contains(#[trigger] self.items@[j]@),
            decreases self.items.len() - i,
        {
            if !other.contains(&self.items[i]) {
                assert(self@.contains(self.items@[i as int]@));
                return false;
            }
            i = i + 1;
        }
        true
    }

    pub fn clone_set(&self) -> (r: KeySet)
        ensures
            r@ == self@,
    {
        let mut items: Vec<String> = Vec::new();
        let mut i: usize = 0;
        while i < self.items.len()
            invariant
                i <= self.items.len(),
                items@.len() == i,
                forall|j: int| 0 <= j < i ==> #[trigger] items@[j]@ == self.items@[j]@,
            decreases self.items.len() - i,
        {
            items.push(self.items[i].clone());
            i = i + 1;
        }
        let r = KeySet { items };
        assert forall|k: Seq<char>| #[trigger] r@.contains(k) == self@.contains(k) by {
            if r@.contains(k) {
                let j = choose|j: int| 0 <= j < r.items@.len() && #[trigger] r.items@[j]@ == k;
                assert(self.items@[j]@ == k);
            }
            if self@.contains(k) {
                let j = choose|j: int| 0 <= j < self.items@.len() && #[trigger] self.items@[j]@ == k;
                assert(r.items@[j]@ == k);
            }
        }
        assert(r@ =~= self@);
        r
    }
}

} // verus!
