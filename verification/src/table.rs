use vstd::prelude::*;

use crate::text::{bytes_eq, seq_bytes_view};

verus! {

/// The finite map described by parallel key and value columns; a later column
/// entry overrides an earlier one with the same key.
pub open spec fn map_of<T>(keys: Seq<Seq<u8>>, vals: Seq<T>) -> Map<Seq<u8>, T>
    decreases keys.len(),
{
    if keys.len() == 0 || vals.len() == 0 {
        Map::empty()
    } else {
        map_of(keys.drop_last(), vals.drop_last()).insert(keys.last(), vals.last())
    }
}

proof fn lemma_map_of_contains<T>(keys: Seq<Seq<u8>>, vals: Seq<T>, k: Seq<u8>)
    requires
        keys.len() == vals.len(),
    ensures
        map_of(keys, vals).contains_key(k) <==> exists|i: int| 0 <= i < keys.len() && keys[i] == k,
    decreases keys.len(),
{
    if keys.len() > 0 {
        lemma_map_of_contains(keys.drop_last(), vals.drop_last(), k);
        if map_of(keys, vals).contains_key(k) {
            if k == keys.last() {
                assert(keys[keys.len() - 1] == k);
            } else {
                let i = choose|i: int| 0 <= i < keys.len() - 1 && keys.drop_last()[i] == k;
                assert(keys[i] == k);
            }
        }
        if exists|i: int| 0 <= i < keys.len() && keys[i] == k {
            let i = choose|i: int| 0 <= i < keys.len() && keys[i] == k;
            if i < keys.len() - 1 {
                assert(keys.drop_last()[i] == k);
            }
        }
    }
}

proof fn lemma_map_of_get<T>(keys: Seq<Seq<u8>>, vals: Seq<T>, i: int)
    requires
        keys.len() == vals.len(),
        0 <= i < keys.len(),
        forall|j: int| i < j < keys.len() ==> keys[j] != keys[i],
    ensures
        map_of(keys, vals).contains_key(keys[i]),
        map_of(keys, vals)[keys[i]] == vals[i],
    decreases keys.len(),
{
    if i == keys.len() - 1 {
    } else {
        assert(keys.drop_last()[i] == keys[i]);
        assert forall|j: int| i < j < keys.drop_last().len() implies keys.drop_last()[j]
            != keys.drop_last()[i] by {
            assert(keys[j] != keys[i]);
        }
        lemma_map_of_get(keys.drop_last(), vals.drop_last(), i);
    }
}

proof fn lemma_map_of_update<T>(keys: Seq<Seq<u8>>, vals: Seq<T>, i: int, v: T)
    requires
        keys.len() == vals.len(),
        0 <= i < keys.len(),
        forall|j: int| 0 <= j < keys.len() && j != i ==> keys[j] != keys[i],
    ensures
        map_of(keys, vals.update(i, v)) == map_of(keys, vals).insert(keys[i], v),
    decreases keys.len(),
{
    let n = keys.len();
    if i == n - 1 {
        assert(vals.update(i, v).drop_last() =~= vals.drop_last());
        assert(map_of(keys, vals.update(i, v)) =~= map_of(keys, vals).insert(keys[i], v));
    } else {
        assert(vals.update(i, v).drop_last() =~= vals.drop_last().update(i, v));
        assert(keys.drop_last()[i] == keys[i]);
        assert forall|j: int| 0 <= j < keys.drop_last().len() && j != i implies keys.drop_last()[j]
            != keys.drop_last()[i] by {
            assert(keys[j] != keys[i]);
        }
        lemma_map_of_update(keys.drop_last(), vals.drop_last(), i, v);
        assert(map_of(keys, vals.update(i, v)) =~= map_of(keys, vals).insert(keys[i], v));
    }
}

proof fn lemma_map_of_remove<T>(keys: Seq<Seq<u8>>, vals: Seq<T>, i: int)
    requires
        keys.len() == vals.len(),
        0 <= i < keys.len(),
        forall|j: int| 0 <= j < keys.len() && j != i ==> keys[j] != keys[i],
    ensures
        map_of(keys.remove(i), vals.remove(i)) == map_of(keys, vals).remove(keys[i]),
    decreases keys.len(),
{
    let n = keys.len();
    lemma_map_of_contains(keys, vals, keys[i]);
    if i == n - 1 {
        lemma_map_of_contains(keys.drop_last(), vals.drop_last(), keys[i]);
        assert(keys.remove(i) =~= keys.drop_last());
        assert(vals.remove(i) =~= vals.drop_last());
        assert(!map_of(keys.drop_last(), vals.drop_last()).contains_key(keys[i]));
        assert(map_of(keys.remove(i), vals.remove(i)) =~= map_of(keys, vals).remove(keys[i]));
    } else {
        assert(keys.remove(i).drop_last() =~= keys.drop_last().remove(i));
        assert(vals.remove(i).drop_last() =~= vals.drop_last().remove(i));
        assert(keys.drop_last()[i] == keys[i]);
        assert forall|j: int| 0 <= j < keys.drop_last().len() && j != i implies keys.drop_last()[j]
            != keys.drop_last()[i] by {
            assert(keys[j] != keys[i]);
        }
        lemma_map_of_remove(keys.drop_last(), vals.drop_last(), i);
        assert(keys.remove(i).last() == keys.last());
        assert(vals.remove(i).last() == vals.last());
        assert(map_of(keys.remove(i), vals.remove(i)) =~= map_of(keys, vals).remove(keys[i]));
    }
}

/// A small string-keyed table with unique keys, the executable form of a
/// `Map<Seq<u8>, _>`.
#[derive(Debug)]
pub struct Table<V> {
    keys: Vec<Vec<u8>>,
    vals: Vec<V>,
}

impl<V: View> Table<V> {
    spec fn key_seq(self) -> Seq<Seq<u8>> {
        seq_bytes_view(self.keys@)
    }

    spec fn val_seq(self) -> Seq<V::V> {
        Seq::new(self.vals@.len(), |i: int| self.vals@[i]@)
    }

    /// Well-formed: columns of equal length, keys unique.
    pub closed spec fn wf(self) -> bool {
        &&& self.keys@.len() == self.vals@.len()
        &&& forall|i: int, j: int|
            0 <= i < j < self.key_seq().len() ==> self.key_seq()[i] != self.key_seq()[j]
    }

    pub fn new() -> (r: Self)
        ensures
            r.wf(),
            r@ == Map::<Seq<u8>, V::V>::empty(),
    {
        let r = Table { keys: Vec::new(), vals: Vec::new() };
        proof {
            assert(r@ =~= Map::<Seq<u8>, V::V>::empty());
        }
        r
    }

    /// The column position holding `key`, if any.
    fn find(&self, key: &Vec<u8>) -> (r: Option<usize>)
        requires
            self.wf(),
        ensures
            match r {
                Some(i) => i < self.key_seq().len() && self.key_seq()[i as int] == key@,
                None => forall|i: int| 0 <= i < self.key_seq().len() ==> self.key_seq()[i] != key@,
            },
    {
        let n = self.keys.len();
        let mut i: usize = 0;
        while i < n
            invariant
                n == self.keys@.len(),
                i <= n,
                forall|k: int| 0 <= k < i ==> self.key_seq()[k] != key@,
            decreases n - i,
        {
            if bytes_eq(&self.keys[i], key) {
                return Some(i);
            }
            i += 1;
        }
        None
    }

    pub fn contains_key(&self, key: &Vec<u8>) -> (r: bool)
        requires
            self.wf(),
        ensures
            r == self@.contains_key(key@),
    {
        proof {
            lemma_map_of_contains(self.key_seq(), self.val_seq(), key@);
        }
        match self.find(key) {
            Some(_) => true,
            None => false,
        }
    }

    pub fn get(&self, key: &Vec<u8>) -> (r: Option<&V>)
        requires
            self.wf(),
        ensures
            match r {
                Some(v) => self@.contains_key(key@) && v@ == self@[key@],
                None => !self@.contains_key(key@),
            },
    {
        proof {
            lemma_map_of_contains(self.key_seq(), self.val_seq(), key@);
        }
        match self.find(key) {
            Some(i) => {
                proof {
                    lemma_map_of_get(self.key_seq(), self.val_seq(), i as int);
                }
                Some(&self.vals[i])
            },
            None => None,
        }
    }

    /// Inserts or overwrites.
    pub fn insert(&mut self, key: Vec<u8>, val: V)
        requires
            old(self).wf(),
        ensures
            final(self).wf(),
            final(self)@ == old(self)@.insert(key@, val@),
    {
        match self.find(&key) {
            Some(i) => {
                proof {
                    lemma_map_of_update(self.key_seq(), self.val_seq(), i as int, val@);
                }
                self.vals.set(i, val);
                proof {
                    assert(self.key_seq() =~= old(self).key_seq());
                    assert(self.val_seq() =~= old(self).val_seq().update(i as int, val@));
                }
            },
            None => {
                self.keys.push(key);
                self.vals.push(val);
                proof {
                    assert(self.key_seq() =~= old(self).key_seq().push(key@));
                    assert(self.val_seq() =~= old(self).val_seq().push(val@));
                    assert(self.key_seq().drop_last() =~= old(self).key_seq());
                    assert(self.val_seq().drop_last() =~= old(self).val_seq());
                }
            },
        }
    }

    /// Removes the key if present; absence is not an error.
    pub fn remove(&mut self, key: &Vec<u8>)
        requires
            old(self).wf(),
        ensures
            final(self).wf(),
            final(self)@ == old(self)@.remove(key@),
    {
        proof {
            lemma_map_of_contains(old(self).key_seq(), old(self).val_seq(), key@);
        }
        match self.find(key) {
            Some(i) => {
                proof {
                    lemma_map_of_remove(self.key_seq(), self.val_seq(), i as int);
                }
                self.keys.remove(i);
                self.vals.remove(i);
                proof {
                    assert(self.key_seq() =~= old(self).key_seq().remove(i as int));
                    assert(self.val_seq() =~= old(self).val_seq().remove(i as int));
                }
            },
            None => {
                proof {
                    assert(self@ =~= old(self)@.remove(key@));
                }
            },
        }
    }
}

impl<V: View> View for Table<V> {
    type V = Map<Seq<u8>, V::V>;

    closed spec fn view(&self) -> Map<Seq<u8>, V::V> {
        map_of(self.key_seq(), self.val_seq())
    }
}

} // verus!
