//! A map keyed by text that also remembers an order of its entries.

use vstd::hash_map::StringHashMap;
use vstd::prelude::*;

verus! {

/// A map from text to `V`.
///
/// Entries are kept in a row that can be walked by position. A new key goes to
/// the end of the row; removing a key moves the last entry into its place.
pub struct StrMap<V> {
    keys: Vec<String>,
    vals: Vec<V>,
    index: StringHashMap<usize>,
}

impl<V> View for StrMap<V> {
    type V = Map<Seq<char>, V>;

    /// What each key is mapped to.
    closed spec fn view(&self) -> Map<Seq<char>, V> {
        Map::new(
            |k: Seq<char>| self.index@.contains_key(k),
            |k: Seq<char>| self.vals@[self.index@[k] as int],
        )
    }
}

/// The row `row` without the entry at `i`, the last one having moved there.
pub open spec fn swap_out<T>(row: Seq<T>, i: int) -> Seq<T> {
    row.update(i, row.last()).drop_last()
}

impl<V> StrMap<V> {
    /// The keys in the order of the row.
    pub closed spec fn order(self) -> Seq<Seq<char>> {
        Seq::new(self.keys@.len(), |i: int| self.keys@[i]@)
    }

    /// The index knows every key of the row, at its position, and no other.
    pub closed spec fn wf(self) -> bool {
        &&& self.keys@.len() == self.vals@.len()
        &&& forall|i: int|
            0 <= i < self.keys@.len() ==> self.index@.contains_key(#[trigger] self.keys@[i]@)
                && self.index@[self.keys@[i]@] == i
        &&& forall|k: Seq<char>| #[trigger]
            self.index@.contains_key(k) ==> self.index@[k] < self.keys@.len()
                && self.keys@[self.index@[k] as int]@ == k
    }

    /// The row lists each key of the map once and nothing else.
    pub proof fn lemma_order(self)
        requires
            self.wf(),
        ensures
            self.order().no_duplicates(),
            forall|k: Seq<char>| self@.contains_key(k) <==> #[trigger] self.order().contains(k),
            forall|i: int|
                0 <= i < self.order().len() ==> self@.contains_key(#[trigger] self.order()[i]),
            self@.dom() =~= self.order().to_set(),
    {
        assert forall|k: Seq<char>| self@.contains_key(k) implies #[trigger]
            self.order().contains(k) by {
            assert(self.order()[self.index@[k] as int] == k);
        }
        assert forall|i: int| 0 <= i < self.order().len() implies self@.contains_key(
            #[trigger] self.order()[i],
        ) by {
            assert(self.index@.contains_key(self.keys@[i]@));
        }
        assert forall|i: int, j: int|
            0 <= i < self.order().len() && 0 <= j < self.order().len() && i != j implies
            self.order()[i] != self.order()[j] by {
            assert(self.index@[self.keys@[i]@] == i);
            assert(self.index@[self.keys@[j]@] == j);
        }
        assert(self@.dom() =~= self.order().to_set());
    }

    /// An empty map.
    pub fn new() -> (res: Self)
        ensures
            res.wf(),
            res@ == Map::<Seq<char>, V>::empty(),
            res.order() == Seq::<Seq<char>>::empty(),
    {
        let res = StrMap { keys: Vec::new(), vals: Vec::new(), index: StringHashMap::new() };
        assert(res@ =~= Map::<Seq<char>, V>::empty());
        res
    }

    /// The number of entries.
    pub fn len(&self) -> (res: usize)
        requires
            self.wf(),
        ensures
            res == self.order().len(),
    {
        self.keys.len()
    }

    /// What `key` is mapped to.
    pub fn get(&self, key: &str) -> (res: Option<&V>)
        requires
            self.wf(),
        ensures
            match res {
                Some(v) => self@.contains_key(key@) && *v == self@[key@],
                None => !self@.contains_key(key@),
            },
    {
        match self.index.get(key) {
            Some(i) => Some(&self.vals[*i]),
            None => None,
        }
    }

    /// The key at position `i` of the row.
    pub fn key_at(&self, i: usize) -> (res: &String)
        requires
            self.wf(),
            i < self.order().len(),
        ensures
            res@ == self.order()[i as int],
            self@.contains_key(res@),
    {
        &self.keys[i]
    }

    /// The value at position `i` of the row.
    pub fn value_at(&self, i: usize) -> (res: &V)
        requires
            self.wf(),
            i < self.order().len(),
        ensures
            *res == self@[self.order()[i as int]],
            self@.contains_key(self.order()[i as int]),
    {
        assert(self.index@[self.keys@[i as int]@] == i);
        &self.vals[i]
    }

    /// Access to the value of `key`, to change it in place.
    pub fn get_mut(&mut self, key: &str) -> (res: Option<&mut V>)
        requires
            old(self).wf(),
        ensures
            final(self).wf(),
            final(self).order() == old(self).order(),
            match res {
                Some(v) => {
                    &&& old(self)@.contains_key(key@)
                    &&& *v == old(self)@[key@]
                    &&& final(self)@ == old(self)@.insert(key@, *final(v))
                },
                None => !old(self)@.contains_key(key@) && final(self)@ == old(self)@,
            },
    {
        match self.index.get(key) {
            Some(i) => {
                let i: usize = *i;
                let v = &mut self.vals[i];
                Some(v)
            },
            None => None,
        }
    }

    /// Maps `key` to `value`. A key that is already there keeps its position.
    pub fn insert(&mut self, key: &str, value: V)
        requires
            old(self).wf(),
        ensures
            final(self).wf(),
            final(self)@ == old(self)@.insert(key@, value),
            final(self).order() == if old(self)@.contains_key(key@) {
                old(self).order()
            } else {
                old(self).order().push(key@)
            },
    {
        match self.index.get(key) {
            Some(i) => {
                let i: usize = *i;
                self.vals.set(i, value);
            },
            None => {
                let at: usize = self.keys.len();
                self.keys.push(key.to_owned());
                self.vals.push(value);
                self.index.insert(key.to_owned(), at);
                proof {
                    assert(self.order() =~= old(self).order().push(key@));
                    assert forall|i: int| 0 <= i < self.keys@.len() implies self.index@.contains_key(
                        #[trigger] self.keys@[i]@,
                    ) && self.index@[self.keys@[i]@] == i by {
                        if i < at {
                            assert(old(self).index@.contains_key(old(self).keys@[i]@));
                        }
                    }
                }
            },
        }
        assert(self@ =~= old(self)@.insert(key@, value));
    }

    /// Forgets `key` and gives back what it was mapped to.
    pub fn remove(&mut self, key: &str) -> (res: Option<V>)
        requires
            old(self).wf(),
        ensures
            final(self).wf(),
            final(self)@ == old(self)@.remove(key@),
            match res {
                Some(v) => {
                    &&& old(self)@.contains_key(key@)
                    &&& v == old(self)@[key@]
                    &&& exists|i: int|
                        0 <= i < old(self).order().len() && #[trigger] old(self).order()[i] == key@
                            && final(self).order() == swap_out(old(self).order(), i)
                },
                None => !old(self)@.contains_key(key@) && *final(self) == *old(self),
            },
    {
        let i: usize = match self.index.get(key) {
            Some(i) => *i,
            None => {
                assert(self@ =~= old(self)@.remove(key@));
                return None;
            },
        };
        let ghost n = self.keys@.len() as int;
        let v = self.vals.swap_remove(i);
        let _ = self.keys.swap_remove(i);
        self.index.remove(key);
        if i < self.keys.len() {
            self.index.insert(self.keys[i].clone(), i);
        }
        proof {
            let o = *old(self);
            assert(o.order()[i as int] == key@);
            assert(self.order() =~= swap_out(o.order(), i as int));
            assert forall|j: int| 0 <= j < self.keys@.len() implies self.index@.contains_key(
                #[trigger] self.keys@[j]@,
            ) && self.index@[self.keys@[j]@] == j by {
                assert(o.index@[o.keys@[j]@] == j);
                assert(o.index@[o.keys@[n - 1]@] == n - 1);
                assert(o.index@[o.keys@[i as int]@] == i);
            }
            assert forall|k: Seq<char>| #[trigger] self.index@.contains_key(k) implies self.index@[k]
                < self.keys@.len() && self.keys@[self.index@[k] as int]@ == k by {
                if i < self.keys@.len() && k == self.keys@[i as int]@ {
                } else {
                    assert(o.index@.contains_key(k));
                    assert(o.keys@[o.index@[k] as int]@ == k);
                }
            }
            assert(self@ =~= o@.remove(key@)) by {
                assert forall|k: Seq<char>| self@.contains_key(k) == o@.remove(key@).contains_key(
                    k,
                ) by {
                    assert(o.index@.contains_key(o.keys@[n - 1]@));
                    assert(o.index@[o.keys@[n - 1]@] == n - 1);
                }
                assert forall|k: Seq<char>| self@.contains_key(k) implies self@[k] == o@[k] by {
                    assert(self.index@.contains_key(k));
                }
            }
        }
        Some(v)
    }
}

} // verus!
