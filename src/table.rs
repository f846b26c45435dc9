use vstd::prelude::*;

verus! {

/// Index of the last entry of `s` whose key is `k`, or -1 when there is none.
pub open spec fn find_key<V>(s: Seq<(String, V)>, k: Seq<char>) -> int
    decreases s.len(),
{
    if s.len() == 0 {
        -1
    } else if s.last().0@ == k {
        s.len() - 1
    } else {
        find_key(s.drop_last(), k)
    }
}

/// No two entries share a key.
pub open spec fn keys_unique<V>(s: Seq<(String, V)>) -> bool {
    forall|i: int, j: int| 0 <= i < j < s.len() ==> s[i].0@ != s[j].0@
}

/// The map that a sequence of entries stands for.
pub open spec fn entries_map<V>(s: Seq<(String, V)>) -> Map<Seq<char>, V> {
    Map::new(|k: Seq<char>| find_key(s, k) >= 0, |k: Seq<char>| s[find_key(s, k)].1)
}

pub proof fn lemma_find_key<V>(s: Seq<(String, V)>, k: Seq<char>)
    ensures
        -1 <= find_key(s, k) < s.len(),
        find_key(s, k) >= 0 ==> s[find_key(s, k)].0@ == k,
        forall|j: int| find_key(s, k) < j < s.len() ==> s[j].0@ != k,
    decreases s.len(),
{
    if s.len() > 0 && s.last().0@ != k {
        lemma_find_key(s.drop_last(), k);
        assert forall|j: int| 0 <= j < s.len() - 1 implies s.drop_last()[j] == s[j] by {}
    }
}

/// With unique keys, the entry that holds a key is the one `find_key` gives.
pub proof fn lemma_find_key_unique<V>(s: Seq<(String, V)>, i: int)
    requires
        keys_unique(s),
        0 <= i < s.len(),
    ensures
        find_key(s, s[i].0@) == i,
{
    lemma_find_key(s, s[i].0@);
}

/// A finite map from names to values, kept as a list of entries with unique keys.
#[derive(Clone, Debug)]
pub struct Table<V> {
    entries: Vec<(String, V)>,
}

impl<V> View for Table<V> {
    type V = Map<Seq<char>, V>;

    closed spec fn view(&self) -> Map<Seq<char>, V> {
        entries_map(self.entries@)
    }
}

impl<V> Table<V> {
    /// Well-formedness: no key is held twice.
    pub closed spec fn wf(&self) -> bool {
        keys_unique(self.entries@)
    }

    /// An empty table.
    pub fn new() -> (r: Self)
        ensures
            r.wf(),
            r@ == Map::<Seq<char>, V>::empty(),
    {
        let r = Table { entries: Vec::new() };
        assert(r@ =~= Map::<Seq<char>, V>::empty());
        r
    }

    /// The entries of the table, each name once, in no particular order.
    pub fn entries(&self) -> (r: &Vec<(String, V)>)
        requires
            self.wf(),
        ensures
            keys_unique(r@),
            entries_map(r@) == self@,
    {
        &self.entries
    }

    /// Number of names held.
    pub fn len(&self) -> (r: usize)
        requires
            self.wf(),
        ensures
            r == self@.dom().len(),
    {
        proof {
            self.lemma_dom();
        }
        self.entries.len()
    }

    proof fn lemma_dom(&self)
        requires
            self.wf(),
        ensures
            self@.dom().finite(),
            self@.dom().len() == self.entries@.len(),
    {
        let s = self.entries@;
        let keys = Seq::new(s.len(), |i: int| s[i].0@);
        assert forall|i: int, j: int| 0 <= i < j < keys.len() implies keys[i] != keys[j] by {}
        assert(keys.no_duplicates());
        keys.unique_seq_to_set();
        assert forall|k: Seq<char>| self@.dom().contains(k) <==> keys.to_set().contains(k) by {
            lemma_find_key(s, k);
            if find_key(s, k) >= 0 {
                assert(keys[find_key(s, k)] == k);
                assert(keys.contains(k));
            }
            if keys.to_set().contains(k) {
                let i = choose|i: int| 0 <= i < keys.len() && keys[i] == k;
                lemma_find_key_unique(s, i);
            }
        }
        assert(self@.dom() =~= keys.to_set());
    }

    /// Position of the entry for `k`, if any.
    fn index_of(&self, k: &str) -> (r: Option<usize>)
        requires
            self.wf(),
        ensures
            match r {
                Some(i) => i < self.entries@.len() && i == find_key(self.entries@, k@),
                None => find_key(self.entries@, k@) == -1,
            },
    {
        let mut i: usize = self.entries.len();
        while i > 0
            invariant
                self.wf(),
                i <= self.entries@.len(),
                forall|j: int| i <= j < self.entries@.len() ==> self.entries@[j].0@ != k@,
            decreases i,
        {
            i = i - 1;
            if str_eq(self.entries[i].0.as_str(), k) {
                proof {
                    lemma_find_key_unique(self.entries@, i as int);
                }
                return Some(i);
            }
        }
        proof {
            lemma_find_key(self.entries@, k@);
        }
        None
    }

    /// The value held for `k`.
    pub fn get(&self, k: &str) -> (r: Option<&V>)
        requires
            self.wf(),
        ensures
            match r {
                Some(v) => self@.contains_key(k@) && *v == self@[k@],
                None => !self@.contains_key(k@),
            },
    {
        match self.index_of(k) {
            Some(i) => Some(&self.entries[i].1),
            None => None,
        }
    }

    /// Binds `k` to `v`, replacing any earlier value of `k` and leaving the other names alone.
    pub fn insert(&mut self, k: String, v: V)
        requires
            old(self).wf(),
        ensures
            final(self).wf(),
            final(self)@ == old(self)@.insert(k@, v),
    {
        let ghost s0 = self.entries@;
        let ghost kv = k@;
        match self.index_of(k.as_str()) {
            Some(i) => {
                self.entries.set(i, (k, v));
                proof {
                    let s1 = self.entries@;
                    lemma_find_key(s0, kv);
                    assert(keys_unique(s1)) by {
                        assert forall|a: int, b: int| 0 <= a < b < s1.len() implies s1[a].0@ != s1[b].0@ by {
                            assert(s1[a].0@ == s0[a].0@);
                            assert(s1[b].0@ == s0[b].0@);
                        }
                    }
                    assert forall|q: Seq<char>| find_key(s1, q) == find_key(s0, q) by {
                        lemma_find_key(s0, q);
                        lemma_find_key(s1, q);
                        if find_key(s0, q) >= 0 {
                            lemma_find_key_unique(s1, find_key(s0, q));
                        }
                        if find_key(s1, q) >= 0 {
                            lemma_find_key_unique(s0, find_key(s1, q));
                        }
                    }
                    assert forall|q: Seq<char>| q != kv && find_key(s0, q) >= 0 implies s1[find_key(
                        s0,
                        q,
                    )] == s0[find_key(s0, q)] by {
                        lemma_find_key(s0, q);
                    }
                    assert(self@ =~= old(self)@.insert(kv, v));
                }
            },
            None => {
                self.entries.push((k, v));
                proof {
                    let s1 = self.entries@;
                    assert(s1.drop_last() =~= s0);
                    lemma_find_key(s0, kv);
                    assert forall|q: Seq<char>| #[trigger] find_key(s1, q) == (if q == kv {
                        s0.len() as int
                    } else {
                        find_key(s0, q)
                    }) by {
                        lemma_find_key(s0, q);
                    }
                    assert forall|q: Seq<char>| find_key(s0, q) >= 0 implies s1[find_key(s0, q)]
                        == s0[find_key(s0, q)] by {
                        lemma_find_key(s0, q);
                    }
                    assert(self@ =~= old(self)@.insert(kv, v));
                }
            },
        }
    }

    /// Takes the value held for `k` out of the table.
    pub fn remove(&mut self, k: &str) -> (r: Option<V>)
        requires
            old(self).wf(),
        ensures
            final(self).wf(),
            final(self)@ == old(self)@.remove(k@),
            match r {
                Some(v) => old(self)@.contains_key(k@) && v == old(self)@[k@],
                None => !old(self)@.contains_key(k@),
            },
    {
        let ghost s0 = self.entries@;
        let ghost kv = k@;
        match self.index_of(k) {
            Some(i) => {
                let e = self.entries.remove(i);
                proof {
                    let s1 = self.entries@;
                    lemma_find_key(s0, kv);
                    assert forall|j: int| 0 <= j < s1.len() implies #[trigger] s1[j] == (if j < i {
                        s0[j]
                    } else {
                        s0[j + 1]
                    }) by {}
                    assert(keys_unique(s1));
                    assert forall|q: Seq<char>| #[trigger] find_key(s1, q) == (if q == kv {
                        -1
                    } else if find_key(s0, q) < i {
                        find_key(s0, q)
                    } else {
                        find_key(s0, q) - 1
                    }) by {
                        lemma_find_key(s0, q);
                        lemma_find_key(s1, q);
                        let f1 = find_key(s1, q);
                        if f1 >= 0 {
                            if f1 < i {
                                lemma_find_key_unique(s0, f1);
                            } else {
                                lemma_find_key_unique(s0, f1 + 1);
                            }
                        }
                        let f0 = find_key(s0, q);
                        if f0 >= 0 && f0 != i {
                            if f0 < i {
                                lemma_find_key_unique(s1, f0);
                            } else {
                                lemma_find_key_unique(s1, f0 - 1);
                            }
                        }
                    }
                    assert forall|q: Seq<char>| q != kv && find_key(s0, q) >= 0 implies s1[find_key(
                        s1,
                        q,
                    )] == s0[find_key(s0, q)] by {
                        lemma_find_key(s0, q);
                        assert(find_key(s1, q) == find_key(s0, q) || find_key(s1, q) == find_key(
                            s0,
                            q,
                        ) - 1);
                    }
                    assert forall|q: Seq<char>| #[trigger] self@.contains_key(q) <==> old(self)@.remove(
                        kv,
                    ).contains_key(q) by {
                        lemma_find_key(s0, q);
                        assert(find_key(s1, q) == (if q == kv {
                            -1
                        } else if find_key(s0, q) < i {
                            find_key(s0, q)
                        } else {
                            find_key(s0, q) - 1
                        }));
                    }
                    assert(self@ =~= old(self)@.remove(kv));
                }
                Some(e.1)
            },
            None => None,
        }
    }
}

/// Whether two strings hold the same characters.
pub fn str_eq(a: &str, b: &str) -> (r: bool)
    ensures
        r == (a@ == b@),
{
    let n = a.unicode_len();
    if n != b.unicode_len() {
        return false;
    }
    let mut i: usize = 0;
    while i < n
        invariant
            n == a@.len() == b@.len(),
            i <= n,
            forall|j: int| 0 <= j < i ==> a@[j] == b@[j],
        decreases n - i,
    {
        if a.get_char(i) != b.get_char(i) {
            return false;
        }
        i = i + 1;
    }
    assert(a@ =~= b@);
    true
}

} // verus!
