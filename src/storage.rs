use vstd::prelude::*;

use crate::order::{lemma_lex_total, lemma_lex_trans, lex_le, str_le};

verus! {

/// One key-value namespace: records of type `V` keyed by string.
///
/// The records are kept in key order, the order of `str`; a full scan walks
/// them in that order.
pub struct SingleKvStorage<V> {
    keys: Vec<String>,
    values: Vec<V>,
    model: Ghost<Map<Seq<char>, V>>,
}

impl<V> View for SingleKvStorage<V> {
    type V = Map<Seq<char>, V>;

    closed spec fn view(&self) -> Map<Seq<char>, V> {
        self.model@
    }
}

impl<V> SingleKvStorage<V> {
    /// The keys in scan order.
    pub closed spec fn key_order(&self) -> Seq<Seq<char>> {
        self.keys@.map_values(|k: String| k@)
    }

    pub closed spec fn wf(&self) -> bool {
        &&& self.keys.len() == self.values.len()
        &&& forall|i: int, j: int|
            0 <= i < self.keys.len() && 0 <= j < self.keys.len() && i != j
                ==> #[trigger] self.keys[i]@ != #[trigger] self.keys[j]@
        &&& forall|i: int, j: int|
            0 <= i < j < self.keys.len() ==> lex_le(#[trigger] self.keys[i]@, #[trigger] self.keys[j]@)
        &&& forall|i: int|
            0 <= i < self.keys.len() ==> {
                &&& self.model@.contains_key(#[trigger] self.keys[i]@)
                &&& self.model@[self.keys[i]@] == self.values[i]
            }
        &&& forall|k: Seq<char>| #[trigger]
            self.model@.contains_key(k) ==> exists|i: int|
                0 <= i < self.keys.len() && #[trigger] self.keys[i]@ == k
    }

    /// The scan order lists every stored key exactly once, in key order.
    pub proof fn lemma_key_order(&self)
        requires
            self.wf(),
        ensures
            self.key_order().no_duplicates(),
            forall|k: Seq<char>| #[trigger]
                self@.contains_key(k) <==> self.key_order().contains(k),
            forall|i: int, j: int|
                0 <= i < j < self.key_order().len() ==> lex_le(
                    #[trigger] self.key_order()[i],
                    #[trigger] self.key_order()[j],
                ),
    {
        assert forall|i: int, j: int| 0 <= i < j < self.key_order().len() implies lex_le(
            #[trigger] self.key_order()[i],
            #[trigger] self.key_order()[j],
        ) by {
            assert(self.keys[i]@ == self.key_order()[i]);
            assert(self.keys[j]@ == self.key_order()[j]);
        }
        assert forall|k: Seq<char>| #[trigger] self@.contains_key(k) implies self.key_order().contains(k) by {
            let i = choose|i: int| 0 <= i < self.keys.len() && #[trigger] self.keys[i]@ == k;
            assert(self.key_order()[i] == k);
        }
        assert forall|k: Seq<char>| #[trigger] self.key_order().contains(k) implies self@.contains_key(k) by {
            let i = choose|i: int| 0 <= i < self.key_order().len() && self.key_order()[i] == k;
            assert(self.keys[i]@ == k);
        }
        assert forall|i: int, j: int|
            0 <= i < self.key_order().len() && 0 <= j < self.key_order().len() && i != j
            implies self.key_order()[i] != self.key_order()[j] by {
            assert(self.keys[i]@ == self.key_order()[i]);
            assert(self.keys[j]@ == self.key_order()[j]);
        }
    }

    pub fn new() -> (r: Self)
        ensures
            r.wf(),
            r@ == Map::<Seq<char>, V>::empty(),
    {
        SingleKvStorage { keys: Vec::new(), values: Vec::new(), model: Ghost(Map::empty()) }
    }

    /// Position of `key` in scan order, if it is stored.
    fn find(&self, key: &str) -> (r: Option<usize>)
        requires
            self.wf(),
        ensures
            match r {
                Some(i) => i < self.keys.len() && self.keys[i as int]@ == key@,
                None => !self@.contains_key(key@),
            },
    {
        let k = key.to_owned();
        let mut i: usize = 0;
        while i < self.keys.len()
            invariant
                self.wf(),
                k@ == key@,
                0 <= i <= self.keys.len(),
                forall|j: int| 0 <= j < i ==> self.keys[j]@ != key@,
            decreases self.keys.len() - i,
        {
            if self.keys[i] == k {
                return Some(i);
            }
            i = i + 1;
        }
        None
    }

    pub fn len(&self) -> (r: usize)
        requires
            self.wf(),
        ensures
            r == self.key_order().len(),
    {
        self.keys.len()
    }

    /// The record at position `i` of the scan order.
    pub fn entry_at(&self, i: usize) -> (r: (&String, &V))
        requires
            self.wf(),
            i < self.key_order().len(),
        ensures
            r.0@ == self.key_order()[i as int],
            self@.contains_key(r.0@),
            *r.1 == self@[r.0@],
    {
        (&self.keys[i], &self.values[i])
    }

    pub fn get_single(&self, key: &str) -> (r: Option<&V>)
        requires
            self.wf(),
        ensures
            match r {
                Some(v) => self@.contains_key(key@) && *v == self@[key@],
                None => !self@.contains_key(key@),
            },
    {
        match self.find(key) {
            Some(i) => Some(&self.values[i]),
            None => None,
        }
    }

    pub fn contains(&self, key: &str) -> (r: bool)
        requires
            self.wf(),
        ensures
            r == self@.contains_key(key@),
    {
        self.find(key).is_some()
    }

    /// Stores `value` under `key`, replacing any record there.
    pub fn put_single(&mut self, key: &str, value: V)
        requires
            old(self).wf(),
        ensures
            final(self).wf(),
            final(self)@ == old(self)@.insert(key@, value),
    {
        let ghost m = self.model@.insert(key@, value);
        match self.find(key) {
            Some(i) => {
                self.values.set(i, value);
                self.model = Ghost(m);
                assert forall|k: Seq<char>| #[trigger] self.model@.contains_key(k) implies exists|j: int|
                    0 <= j < self.keys.len() && #[trigger] self.keys[j]@ == k by {
                    if k == key@ {
                        assert(self.keys[i as int]@ == k);
                    }
                }
            },
            None => {
                let ghost old_keys = self.keys@;
                let ghost old_values = self.values@;
                let ghost n = old_keys.len() as int;
                proof {
                    assert forall|j: int| 0 <= j < n implies old_keys[j]@ != key@ by {
                        assert(self.model@.contains_key(old_keys[j]@));
                    }
                }
                let mut pos: usize = 0;
                let mut found = false;
                while !found && pos < self.keys.len()
                    invariant
                        self.keys@ == old_keys,
                        *self == *old(self),
                        n == old_keys.len(),
                        old_values == self.values@,
                        0 <= pos <= n,
                        forall|j: int| 0 <= j < pos ==> lex_le(#[trigger] old_keys[j]@, key@),
                        found ==> pos < n && !lex_le(old_keys[pos as int]@, key@),
                    decreases n - pos + (if found { 0int } else { 1int }),
                {
                    if str_le(self.keys[pos].as_str(), key) {
                        pos = pos + 1;
                    } else {
                        found = true;
                    }
                }
                let ghost p = pos as int;
                self.keys.insert(pos, key.to_owned());
                self.values.insert(pos, value);
                self.model = Ghost(m);
                let ghost nk = self.keys@;
                proof {
                    assert(nk =~= old_keys.insert(p, nk[p]));
                    assert(nk[p]@ == key@);
                    assert forall|j: int| 0 <= j < nk.len() implies (j < p ==> nk[j] == old_keys[j])
                        && (j > p ==> nk[j] == old_keys[j - 1]) by {}
                    assert forall|j: int| 0 <= j < nk.len() implies (j < p ==> self.values@[j] == old_values[j])
                        && (j > p ==> self.values@[j] == old_values[j - 1]) && (j == p ==> self.values@[j] == value) by {}
                    assert forall|i: int, j: int|
                        0 <= i < nk.len() && 0 <= j < nk.len() && i != j
                        implies #[trigger] nk[i]@ != #[trigger] nk[j]@ by {
                        let i0 = if i < p { i } else { i - 1 };
                        let j0 = if j < p { j } else { j - 1 };
                        if i != p && j != p {
                            assert(old_keys[i0]@ != old_keys[j0]@);
                        }
                    }
                    assert forall|i: int, j: int| 0 <= i < j < nk.len()
                        implies lex_le(#[trigger] nk[i]@, #[trigger] nk[j]@) by {
                        if j < p {
                            assert(lex_le(old_keys[i]@, old_keys[j]@));
                        } else if j == p {
                            assert(lex_le(old_keys[i]@, key@));
                        } else if i < p {
                            assert(lex_le(old_keys[i]@, old_keys[j - 1]@));
                        } else if i == p {
                            assert(found);
                            lemma_lex_total(old_keys[p]@, key@);
                            if j - 1 > p {
                                assert(lex_le(old_keys[p]@, old_keys[j - 1]@));
                                lemma_lex_trans(key@, old_keys[p]@, old_keys[j - 1]@);
                            }
                        } else {
                            assert(lex_le(old_keys[i - 1]@, old_keys[j - 1]@));
                        }
                    }
                    assert forall|j: int| 0 <= j < nk.len() implies {
                        &&& self.model@.contains_key(#[trigger] nk[j]@)
                        &&& self.model@[nk[j]@] == self.values@[j]
                    } by {
                        if j < p {
                            assert(old(self).model@.contains_key(old_keys[j]@));
                        } else if j > p {
                            assert(old(self).model@.contains_key(old_keys[j - 1]@));
                        }
                    }
                    assert forall|k: Seq<char>| #[trigger] self.model@.contains_key(k) implies exists|j: int|
                        0 <= j < nk.len() && #[trigger] nk[j]@ == k by {
                        if k == key@ {
                            assert(nk[p]@ == k);
                        } else {
                            let j = choose|j: int| 0 <= j < n && #[trigger] old_keys[j]@ == k;
                            if j < p {
                                assert(nk[j]@ == k);
                            } else {
                                assert(nk[j + 1]@ == k);
                            }
                        }
                    }
                }
            },
        }
    }

    /// Removes the record under `key`; nothing happens where there is none.
    pub fn del_single(&mut self, key: &str)
        requires
            old(self).wf(),
        ensures
            final(self).wf(),
            final(self)@ == old(self)@.remove(key@),
    {
        match self.find(key) {
            Some(i) => {
                let ghost old_keys = self.keys@;
                let ghost old_values = self.values@;
                self.keys.remove(i);
                self.values.remove(i);
                self.model = Ghost(self.model@.remove(key@));
                assert forall|j: int| 0 <= j < self.keys.len() implies {
                    &&& self.model@.contains_key(#[trigger] self.keys[j]@)
                    &&& self.model@[self.keys[j]@] == self.values[j]
                } by {
                    if j < i {
                        assert(self.keys[j] == old_keys[j]);
                        assert(old_keys[j]@ != old_keys[i as int]@);
                    } else {
                        assert(self.keys[j] == old_keys[j + 1]);
                        assert(old_keys[j + 1]@ != old_keys[i as int]@);
                    }
                }
                assert forall|a: int, b: int| 0 <= a < b < self.keys.len()
                    implies lex_le(#[trigger] self.keys[a]@, #[trigger] self.keys[b]@) by {
                    let a0 = if a < i { a } else { a + 1 };
                    let b0 = if b < i { b } else { b + 1 };
                    assert(self.keys[a] == old_keys[a0]);
                    assert(self.keys[b] == old_keys[b0]);
                    assert(lex_le(old_keys[a0]@, old_keys[b0]@));
                }
                assert forall|k: Seq<char>| #[trigger] self.model@.contains_key(k) implies exists|j: int|
                    0 <= j < self.keys.len() && #[trigger] self.keys[j]@ == k by {
                    let j = choose|j: int| 0 <= j < old_keys.len() && #[trigger] old_keys[j]@ == k;
                    if j < i {
                        assert(self.keys[j]@ == k);
                    } else {
                        assert(j != i);
                        assert(self.keys[j - 1]@ == k);
                    }
                }
            },
            None => {
                assert(self.model@.remove(key@) =~= self.model@);
            },
        }
    }
}

} // verus!
