//! A finite map from names to values, kept as a vector of entries in
//! ascending order of the names.
use vstd::prelude::*;
use crate::text::{lex_lt, lemma_lex_irreflexive, lemma_lex_total, lemma_lex_transitive, same_text, text_before};

verus! {

/// Whether each text of `keys` stands before all later ones.
pub open spec fn ascending(keys: Seq<Seq<char>>) -> bool {
    forall|i: int, j: int| 0 <= i < j < keys.len() ==> lex_lt(#[trigger] keys[i], #[trigger] keys[j])
}

/// In an ascending sequence a text occurs at one place only.
pub proof fn lemma_ascending_unique(keys: Seq<Seq<char>>, i: int, j: int)
    requires
        ascending(keys),
        0 <= i < keys.len(),
        0 <= j < keys.len(),
        keys[i] == keys[j],
    ensures
        i == j,
{
    lemma_lex_irreflexive(keys[i]);
    if i < j {
        assert(lex_lt(keys[i], keys[j]));
    } else if j < i {
        assert(lex_lt(keys[j], keys[i]));
    }
}

/// Putting a text between those before it and those not before it keeps a
/// sequence ascending.
pub proof fn lemma_insert_ascending(keys: Seq<Seq<char>>, p: int, k: Seq<char>)
    requires
        ascending(keys),
        0 <= p <= keys.len(),
        forall|i: int| 0 <= i < p ==> lex_lt(#[trigger] keys[i], k),
        p < keys.len() ==> lex_lt(k, keys[p]),
    ensures
        ascending(keys.insert(p, k)),
{
    let out = keys.insert(p, k);
    assert forall|i: int, j: int| 0 <= i < j < out.len() implies lex_lt(
        #[trigger] out[i],
        #[trigger] out[j],
    ) by {
        let bi = if i < p { i } else { i - 1 };
        let bj = if j < p { j } else { j - 1 };
        if i != p && j != p {
            assert(lex_lt(keys[bi], keys[bj]));
        } else if i == p {
            if bj > p {
                assert(lex_lt(keys[p], keys[bj]));
                lemma_lex_transitive(k, keys[p], keys[bj]);
            }
        } else {
            assert(lex_lt(keys[bi], k));
        }
    }
}

/// A map from names to values of type `V`.
pub struct Table<V> {
    entries: Vec<(String, V)>,
}

impl<V> View for Table<V> {
    type V = Map<Seq<char>, V>;

    /// The map that the table stands for.
    open spec fn view(&self) -> Map<Seq<char>, V> {
        Map::new(|k: Seq<char>| self.has(k), |k: Seq<char>| self.at(k))
    }
}

impl<V> Table<V> {
    /// The names, in the order in which the table holds them.
    pub closed spec fn keys(&self) -> Seq<Seq<char>> {
        Seq::new(self.entries@.len(), |i: int| self.entries@[i].0@)
    }

    /// The values, each at the place of its name in `keys`.
    pub closed spec fn values(&self) -> Seq<V> {
        Seq::new(self.entries@.len(), |i: int| self.entries@[i].1)
    }

    /// Well-formedness: one value per name, names in ascending order. Every
    /// table that executable code holds is well-formed.
    #[verifier::type_invariant]
    pub open spec fn wf(&self) -> bool {
        &&& self.keys().len() == self.values().len()
        &&& ascending(self.keys())
    }

    /// Whether the table has an entry for `k`.
    pub open spec fn has(&self, k: Seq<char>) -> bool {
        self.keys().contains(k)
    }

    /// A place at which `keys` holds `k`.
    pub open spec fn place(&self, k: Seq<char>) -> int {
        choose|i: int| 0 <= i < self.keys().len() && self.keys()[i] == k
    }

    /// The value stored for `k`.
    pub open spec fn at(&self, k: Seq<char>) -> V {
        self.values()[self.place(k)]
    }

    /// In a well-formed table the value of the name at place `i` is the
    /// value at place `i`.
    pub proof fn lemma_at(&self, i: int)
        requires
            self.wf(),
            0 <= i < self.keys().len(),
        ensures
            self.has(self.keys()[i]),
            self.place(self.keys()[i]) == i,
            self.at(self.keys()[i]) == self.values()[i],
    {
        let k = self.keys()[i];
        let p = self.place(k);
        lemma_ascending_unique(self.keys(), i, p);
    }

    /// The empty table.
    pub fn new() -> (t: Self)
        ensures
            t.wf(),
            t.keys() == Seq::<Seq<char>>::empty(),
            t@ == Map::<Seq<char>, V>::empty(),
    {
        let t = Table { entries: Vec::new() };
        assert(t.keys() =~= Seq::<Seq<char>>::empty());
        assert(t@ =~= Map::<Seq<char>, V>::empty());
        t
    }

    /// The number of entries.
    pub fn len(&self) -> (n: usize)
        ensures
            self.wf(),
            n == self.keys().len(),
    {
        proof {
            use_type_invariant(self);
        }
        self.entries.len()
    }

    /// The name at place `i`.
    pub fn key_at(&self, i: usize) -> (k: &String)
        requires
            i < self.keys().len(),
        ensures
            self.wf(),
            k@ == self.keys()[i as int],
    {
        proof {
            use_type_invariant(self);
        }
        &self.entries[i].0
    }

    /// The value at place `i`.
    pub fn value_at(&self, i: usize) -> (v: &V)
        requires
            i < self.keys().len(),
        ensures
            self.wf(),
            *v == self.values()[i as int],
            *v == self.at(self.keys()[i as int]),
    {
        proof {
            use_type_invariant(self);
            self.lemma_at(i as int);
        }
        &self.entries[i].1
    }

    /// The first place whose name does not stand before `key`.
    fn lower_bound(&self, key: &str) -> (p: usize)
        ensures
            self.wf(),
            p <= self.keys().len(),
            forall|i: int| 0 <= i < p ==> lex_lt(#[trigger] self.keys()[i], key@),
            forall|i: int| p <= i < self.keys().len() ==> !lex_lt(#[trigger] self.keys()[i], key@),
    {
        proof {
            use_type_invariant(self);
        }
        let mut p: usize = 0;
        while p < self.entries.len() && text_before(self.entries[p].0.as_str(), key)
            invariant
                self.wf(),
                p <= self.entries.len(),
                self.entries@.len() == self.keys().len(),
                forall|i: int| 0 <= i < p ==> lex_lt(#[trigger] self.keys()[i], key@),
            decreases self.entries.len() - p,
        {
            p += 1;
        }
        proof {
            if p < self.entries.len() {
                let kp = self.keys()[p as int];
                assert forall|i: int| p <= i < self.keys().len() implies !lex_lt(
                    #[trigger] self.keys()[i],
                    key@,
                ) by {
                    if i > p && lex_lt(self.keys()[i], key@) {
                        assert(lex_lt(kp, self.keys()[i]));
                        lemma_lex_transitive(kp, self.keys()[i], key@);
                    }
                }
            }
        }
        p
    }

    /// The place of `key`, if the table has it.
    pub fn position(&self, key: &str) -> (r: Option<usize>)
        ensures
            self.wf(),
            match r {
                Some(i) => i < self.keys().len() && self.keys()[i as int] == key@,
                None => !self.has(key@),
            },
    {
        let p = self.lower_bound(key);
        if p < self.entries.len() && same_text(self.entries[p].0.as_str(), key) {
            Some(p)
        } else {
            proof {
                if self.has(key@) {
                    let i = self.place(key@);
                    lemma_lex_irreflexive(key@);
                    if i > p {
                        assert(lex_lt(self.keys()[p as int], self.keys()[i]));
                    }
                }
            }
            None
        }
    }

    /// Whether the table has an entry for `key`.
    pub fn contains_key(&self, key: &str) -> (b: bool)
        ensures
            self.wf(),
            b == self.has(key@),
            b == self@.dom().contains(key@),
    {
        match self.position(key) {
            Some(i) => true,
            None => false,
        }
    }

    /// The value stored for `key`.
    pub fn get(&self, key: &str) -> (r: Option<&V>)
        ensures
            self.wf(),
            match r {
                Some(v) => self.has(key@) && *v == self.at(key@),
                None => !self.has(key@),
            },
    {
        match self.position(key) {
            Some(i) => {
                proof {
                    self.lemma_at(i as int);
                }
                Some(&self.entries[i].1)
            },
            None => None,
        }
    }

    /// Stores `value` for `key`, in place of the value that the table had
    /// for it, if any.
    pub fn insert(&mut self, key: String, value: V)
        ensures
            final(self).wf(),
            final(self)@ == old(self)@.insert(key@, value),
    {
        let p = self.lower_bound(key.as_str());
        let ghost before = *self;
        let ghost k = key@;
        let found = p < self.entries.len() && same_text(
            self.entries[p].0.as_str(),
            key.as_str(),
        );
        let mut entries: Vec<(String, V)> = Vec::new();
        proof {
            assert(Seq::new(0, |i: int| entries@[i].0@) =~= Seq::<Seq<char>>::empty());
        }
        core::mem::swap(&mut self.entries, &mut entries);
        if found {
            entries.set(p, (key, value));
            proof {
                assert(Seq::new(entries@.len(), |i: int| entries@[i].0@) =~= before.keys());
            }
        } else {
            entries.insert(p, (key, value));
            proof {
                if p < before.keys().len() {
                    lemma_lex_total(before.keys()[p as int], k);
                }
                lemma_insert_ascending(before.keys(), p as int, k);
                assert(Seq::new(entries@.len(), |i: int| entries@[i].0@) =~= before.keys().insert(
                    p as int,
                    k,
                ));
            }
        }
        core::mem::swap(&mut self.entries, &mut entries);
        proof {
            if found {
                assert(self.keys() =~= before.keys());
                assert(self.values() =~= before.values().update(p as int, value));
                assert(before.keys()[p as int] == k);
                assert(before.has(k));
                assert forall|x: Seq<char>| self.has(x) implies #[trigger] self.at(x) == (if x == k {
                    value
                } else {
                    before.at(x)
                }) by {
                    let i = self.place(x);
                    self.lemma_at(i);
                    before.lemma_at(i);
                    if x == k {
                        lemma_ascending_unique(self.keys(), i, p as int);
                    }
                }
            } else {
                assert(self.keys() =~= before.keys().insert(p as int, k));
                assert(self.values() =~= before.values().insert(p as int, value));
                assert(self.wf());
                assert forall|x: Seq<char>| #[trigger] self.has(x) == (x == k || before.has(x)) by {
                    if before.has(x) {
                        let i = before.place(x);
                        let ni = if i < p { i } else { i + 1 };
                        assert(self.keys()[ni] == x);
                    }
                    if x == k {
                        assert(self.keys()[p as int] == x);
                    }
                    if self.has(x) && x != k {
                        let i = self.place(x);
                        let bi = if i < p { i } else { i - 1 };
                        assert(before.keys()[bi] == x);
                    }
                }
                assert forall|x: Seq<char>| self.has(x) implies #[trigger] self.at(x) == (if x == k {
                    value
                } else {
                    before.at(x)
                }) by {
                    let i = self.place(x);
                    self.lemma_at(i);
                    if i != p {
                        let bi = if i < p { i } else { i - 1 };
                        assert(before.keys()[bi] == x);
                        before.lemma_at(bi);
                        assert(self.values()[i] == before.values()[bi]);
                        lemma_lex_irreflexive(k);
                        if x == k {
                            lemma_ascending_unique(self.keys(), i, p as int);
                        }
                    }
                }
            }
            assert forall|x: Seq<char>| #[trigger]
                self@.dom().contains(x) == before@.insert(k, value).dom().contains(x) by {
                assert(self.has(x) == (x == k || before.has(x)));
            }
            assert forall|x: Seq<char>| self@.dom().contains(x) implies #[trigger] self@[x]
                == before@.insert(k, value)[x] by {
                assert(self.has(x));
                assert(self.at(x) == (if x == k {
                    value
                } else {
                    before.at(x)
                }));
            }
            assert(self@ =~= before@.insert(k, value));
        }
    }
}

} // verus!
