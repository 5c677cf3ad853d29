//! Identity-keyed maps held in strictly increasing key order.
//!
//! Classes and enums are keyed by their process-unique identity key; as
//! with the string-keyed maps, the sorted representation makes the final
//! iteration order independent of registration order.

use vstd::prelude::*;

verus! {

/// A map from identity keys to values, held as a vector of entries sorted
/// strictly by key.
pub struct IdMap<V> {
    pub entries: Vec<(u64, V)>,
}

impl<V> IdMap<V> {
    pub open spec fn spec_len(self) -> nat {
        self.entries@.len()
    }

    pub open spec fn spec_key(self, i: int) -> u64 {
        self.entries@[i].0
    }

    pub open spec fn spec_val(self, i: int) -> V {
        self.entries@[i].1
    }

    /// Keys occur in strictly increasing order (hence each at most once).
    pub open spec fn wf(self) -> bool {
        forall|i: int, j: int|
            0 <= i < j < self.spec_len() ==> #[trigger] self.spec_key(i)
                < #[trigger] self.spec_key(j)
    }

    pub open spec fn contains_spec(self, k: u64) -> bool {
        exists|i: int| 0 <= i < self.spec_len() && self.spec_key(i) == k
    }

    /// The contents, as a mathematical map.
    pub open spec fn as_map(self) -> Map<u64, V> {
        Map::new(
            |k: u64| self.contains_spec(k),
            |k: u64| self.spec_val(choose|i: int| 0 <= i < self.spec_len() && self.spec_key(i) == k),
        )
    }

    /// The map view reads back exactly the entries.
    pub proof fn lemma_view(self, i: int)
        requires
            self.wf(),
            0 <= i < self.spec_len(),
        ensures
            self.as_map().contains_key(self.spec_key(i)),
            self.as_map()[self.spec_key(i)] == self.spec_val(i),
    {
        let k = self.spec_key(i);
        assert(self.contains_spec(k));
    }

    pub fn new() -> (r: Self)
        ensures
            r.wf(),
            r.spec_len() == 0,
            r.as_map() =~= Map::<u64, V>::empty(),
    {
        IdMap { entries: Vec::new() }
    }

    pub fn len(&self) -> (r: usize)
        ensures
            r == self.spec_len(),
    {
        self.entries.len()
    }

    pub fn key_at(&self, i: usize) -> (r: u64)
        requires
            i < self.spec_len(),
        ensures
            r == self.spec_key(i as int),
    {
        self.entries[i].0
    }

    pub fn value_at(&self, i: usize) -> (r: &V)
        requires
            i < self.spec_len(),
        ensures
            *r == self.spec_val(i as int),
    {
        &self.entries[i].1
    }

    /// A mutable borrow of one value; the keys and the other values stay.
    pub fn value_at_mut(&mut self, i: usize) -> (r: &mut V)
        requires
            i < old(self).spec_len(),
        ensures
            *r == old(self).spec_val(i as int),
            final(self).spec_len() == old(self).spec_len(),
            forall|j: int|
                0 <= j < old(self).spec_len() ==> final(self).spec_key(j) == old(self).spec_key(j),
            forall|j: int|
                0 <= j < old(self).spec_len() && j != i ==> final(self).spec_val(j) == old(
                    self,
                ).spec_val(j),
            final(self).spec_val(i as int) == *final(r),
    {
        let e = &mut self.entries[i];
        &mut e.1
    }

    /// Keys alone decide well-formedness.
    pub proof fn lemma_wf_from_same_keys(m0: Self, m1: Self)
        requires
            m0.wf(),
            m1.spec_len() == m0.spec_len(),
            forall|j: int| 0 <= j < m0.spec_len() ==> m1.spec_key(j) == m0.spec_key(j),
        ensures
            m1.wf(),
    {
        assert forall|i: int, j: int| 0 <= i < j < m1.spec_len() implies #[trigger] m1.spec_key(i)
            < #[trigger] m1.spec_key(j) by {
            assert(m1.spec_key(i) == m0.spec_key(i));
            assert(m1.spec_key(j) == m0.spec_key(j));
        }
    }

    /// Replacing one value in place remaps exactly that entry's key.
    pub proof fn lemma_value_update(m0: Self, m1: Self, i: int)
        requires
            m0.wf(),
            0 <= i < m0.spec_len(),
            m1.spec_len() == m0.spec_len(),
            forall|j: int| 0 <= j < m0.spec_len() ==> m1.spec_key(j) == m0.spec_key(j),
            forall|j: int| 0 <= j < m0.spec_len() && j != i ==> m1.spec_val(j) == m0.spec_val(j),
        ensures
            m1.wf(),
            m1.as_map() == m0.as_map().insert(m0.spec_key(i), m1.spec_val(i)),
    {
        Self::lemma_wf_from_same_keys(m0, m1);
        let k = m0.spec_key(i);
        assert(m1.as_map() =~= m0.as_map().insert(k, m1.spec_val(i))) by {
            assert forall|key: u64| m1.as_map().contains_key(key) implies m0.as_map().insert(
                k,
                m1.spec_val(i),
            ).contains_key(key) by {
                let j = choose|j: int| 0 <= j < m1.spec_len() && m1.spec_key(j) == key;
                if j != i {
                    assert(m0.spec_key(j) == key);
                    assert(m0.contains_spec(key));
                }
            }
            assert forall|key: u64| m0.as_map().insert(k, m1.spec_val(i)).contains_key(key)
                implies m1.as_map().contains_key(key) by {
                if key == k {
                    assert(m1.spec_key(i) == key);
                    assert(m1.contains_spec(key));
                } else {
                    let j = choose|j: int|
                        0 <= j < m0.spec_len() && m0.spec_key(j) == key;
                    assert(m1.spec_key(j) == key);
                    assert(m1.contains_spec(key));
                }
            }
            assert forall|key: u64| m1.as_map().contains_key(key) implies m1.as_map()[key]
                == m0.as_map().insert(k, m1.spec_val(i))[key] by {
                let j = choose|j: int| 0 <= j < m1.spec_len() && m1.spec_key(j) == key;
                m1.lemma_view(j);
                if key != k {
                    assert(j != i);
                    assert(m0.spec_key(j) == key);
                    m0.lemma_view(j);
                }
            }
        }
    }

    /// Membership among the entries and membership in the map view
    /// coincide.
    pub proof fn lemma_contains_iff_key(self)
        requires
            self.wf(),
        ensures
            forall|x: u64| #[trigger] self.contains_spec(x) <==> self.as_map().contains_key(x),
    {
        assert forall|x: u64| self.contains_spec(x) <==> self.as_map().contains_key(x) by {
            if self.contains_spec(x) {
                let w = choose|w: int| 0 <= w < self.spec_len() && self.spec_key(w) == x;
                self.lemma_view(w);
            }
        }
    }

    /// Index of the entry holding key `k`, if any.
    pub fn find(&self, k: u64) -> (r: Option<usize>)
        requires
            self.wf(),
        ensures
            match r {
                Some(i) => i < self.spec_len() && self.spec_key(i as int) == k,
                None => !self.contains_spec(k),
            },
    {
        let n = self.entries.len();
        let mut i: usize = 0;
        while i < n
            invariant
                0 <= i <= n,
                n == self.spec_len(),
                self.wf(),
                forall|j: int| 0 <= j < i ==> self.spec_key(j) != k,
            decreases n - i,
        {
            if self.entries[i].0 == k {
                return Some(i);
            }
            i = i + 1;
        }
        None
    }

    /// The value under key `k`, if any.
    pub fn get(&self, k: u64) -> (r: Option<&V>)
        requires
            self.wf(),
        ensures
            match r {
                Some(v) => self.contains_spec(k) && self.as_map().contains_key(k) && *v
                    == self.as_map()[k],
                None => !self.contains_spec(k),
            },
    {
        match self.find(k) {
            Some(i) => {
                proof {
                    self.lemma_view(i as int);
                }
                Some(self.value_at(i))
            },
            None => None,
        }
    }

    /// Inserts `v` under `k`, replacing any value already there.
    pub fn insert(&mut self, k: u64, v: V)
        requires
            old(self).wf(),
        ensures
            final(self).wf(),
            final(self).as_map() == old(self).as_map().insert(k, v),
            final(self).spec_len() == if old(self).contains_spec(k) {
                old(self).spec_len()
            } else {
                old(self).spec_len() + 1
            },
    {
        let ghost old_self = *self;
        let n = self.entries.len();
        let mut i: usize = 0;
        while i < n && self.entries[i].0 < k
            invariant
                0 <= i <= n,
                n == self.spec_len(),
                *self == old_self,
                self.wf(),
                forall|j: int| 0 <= j < i ==> #[trigger] self.spec_key(j) < k,
            decreases n - i,
        {
            i = i + 1;
        }
        let hit = i < n && self.entries[i].0 == k;
        if hit {
            proof {
                assert(old_self.spec_key(i as int) == k);
                assert(old_self.contains_spec(k));
            }
            let e = &mut self.entries[i];
            *e = (k, v);
            proof {
                let m = *self;
                assert(forall|j: int|
                    0 <= j < m.spec_len() && j != i ==> #[trigger] m.spec_key(j)
                        == old_self.spec_key(j) && m.spec_val(j) == old_self.spec_val(j));
                assert(m.spec_key(i as int) == k && m.spec_val(i as int) == v);
                assert forall|p: int, q: int| 0 <= p < q < m.spec_len() implies
                    #[trigger] m.spec_key(p) < #[trigger] m.spec_key(q) by {
                    assert(old_self.spec_key(p) == m.spec_key(p));
                    assert(old_self.spec_key(q) == m.spec_key(q));
                }
                assert(m.wf());
                assert(m.as_map() =~= old_self.as_map().insert(k, v)) by {
                    assert forall|key: u64| m.as_map().contains_key(key) implies old_self.as_map(
                    ).insert(k, v).contains_key(key) by {
                        let j = choose|j: int| 0 <= j < m.spec_len() && m.spec_key(j) == key;
                        if j != i {
                            assert(old_self.contains_spec(key));
                        }
                    }
                    assert forall|key: u64| old_self.as_map().insert(k, v).contains_key(key)
                        implies m.as_map().contains_key(key) by {
                        if key == k {
                            assert(m.contains_spec(key));
                        } else {
                            let j = choose|j: int|
                                0 <= j < old_self.spec_len() && old_self.spec_key(j) == key;
                            assert(m.spec_key(j) == key);
                            assert(m.contains_spec(key));
                        }
                    }
                    assert forall|key: u64| m.as_map().contains_key(key) implies m.as_map()[key]
                        == old_self.as_map().insert(k, v)[key] by {
                        let j = choose|j: int| 0 <= j < m.spec_len() && m.spec_key(j) == key;
                        m.lemma_view(j);
                        if key != k {
                            assert(j != i);
                            assert(old_self.spec_key(j) == key);
                            old_self.lemma_view(j);
                        }
                    }
                }
            }
        } else {
            self.entries.insert(i, (k, v));
            proof {
                let m = *self;
                assert(m.spec_len() == old_self.spec_len() + 1);
                assert(forall|j: int| 0 <= j < i ==> #[trigger] m.spec_key(j) == old_self.spec_key(j)
                    && m.spec_val(j) == old_self.spec_val(j));
                assert(m.spec_key(i as int) == k && m.spec_val(i as int) == v);
                assert(forall|j: int|
                    i < j < m.spec_len() ==> #[trigger] m.spec_key(j) == old_self.spec_key(j - 1)
                        && m.spec_val(j) == old_self.spec_val(j - 1));
                assert forall|p: int, q: int| 0 <= p < q < m.spec_len() implies
                    #[trigger] m.spec_key(p) < #[trigger] m.spec_key(q) by {
                    if p < i && q > i && q - 1 > i - 1 + 1 {
                        assert(old_self.spec_key(p) < old_self.spec_key(q - 1));
                    }
                }
                assert(m.wf());
                assert(!old_self.contains_spec(k));
                assert(m.as_map() =~= old_self.as_map().insert(k, v)) by {
                    assert forall|key: u64| m.as_map().contains_key(key) implies old_self.as_map(
                    ).insert(k, v).contains_key(key) by {
                        let j = choose|j: int| 0 <= j < m.spec_len() && m.spec_key(j) == key;
                        if j < i {
                            assert(old_self.contains_spec(key));
                        } else if j > i {
                            assert(old_self.spec_key(j - 1) == key);
                            assert(old_self.contains_spec(key));
                        }
                    }
                    assert forall|key: u64| old_self.as_map().insert(k, v).contains_key(key)
                        implies m.as_map().contains_key(key) by {
                        if key == k {
                            assert(m.spec_key(i as int) == key);
                            assert(m.contains_spec(key));
                        } else {
                            let j = choose|j: int|
                                0 <= j < old_self.spec_len() && old_self.spec_key(j) == key;
                            if j < i {
                                assert(m.spec_key(j) == key);
                            } else {
                                assert(m.spec_key(j + 1) == key);
                            }
                            assert(m.contains_spec(key));
                        }
                    }
                    assert forall|key: u64| m.as_map().contains_key(key) implies m.as_map()[key]
                        == old_self.as_map().insert(k, v)[key] by {
                        let j = choose|j: int| 0 <= j < m.spec_len() && m.spec_key(j) == key;
                        m.lemma_view(j);
                        if key != k {
                            assert(j != i);
                            if j < i {
                                assert(old_self.spec_key(j) == key);
                                old_self.lemma_view(j);
                            } else {
                                assert(old_self.spec_key(j - 1) == key);
                                old_self.lemma_view(j - 1);
                            }
                        }
                    }
                }
            }
        }
    }
}

/// Keys occur in strictly increasing order.
pub open spec fn sorted_ids(s: Seq<u64>) -> bool {
    forall|i: int, j: int| 0 <= i < j < s.len() ==> #[trigger] s[i] < #[trigger] s[j]
}

/// Two strictly sorted key sequences with the same members are equal.
pub proof fn lemma_sorted_ids_equal(s0: Seq<u64>, s1: Seq<u64>)
    requires
        sorted_ids(s0),
        sorted_ids(s1),
        forall|k: u64| s0.contains(k) <==> s1.contains(k),
    ensures
        s0 == s1,
    decreases s0.len(),
{
    if s0.len() == 0 {
        if s1.len() > 0 {
            assert(s1.contains(s1[0]));
            assert(false);
        }
        assert(s0 =~= s1);
    } else {
        assert(s0.contains(s0.last()));
        assert(s1.len() > 0);
        let a = s0.last();
        let b = s1.last();
        assert(a == b) by {
            if a < b {
                assert(s1.contains(b));
                assert(s0.contains(b));
                let j = choose|j: int| 0 <= j < s0.len() && s0[j] == b;
                if j < s0.len() - 1 {
                    assert(s0[j] < s0[s0.len() - 1]);
                }
            } else if b < a {
                assert(s0.contains(a));
                assert(s1.contains(a));
                let j = choose|j: int| 0 <= j < s1.len() && s1[j] == a;
                if j < s1.len() - 1 {
                    assert(s1[j] < s1[s1.len() - 1]);
                }
            }
        }
        let t0 = s0.drop_last();
        let t1 = s1.drop_last();
        assert forall|k: u64| t0.contains(k) implies t1.contains(k) by {
            lemma_id_member_of_drop_last(s0, s1, k);
        }
        assert forall|k: u64| t1.contains(k) implies t0.contains(k) by {
            lemma_id_member_of_drop_last(s1, s0, k);
        }
        assert(sorted_ids(t0)) by {
            assert forall|i: int, j: int| 0 <= i < j < t0.len() implies #[trigger] t0[i]
                < #[trigger] t0[j] by {
                assert(t0[i] == s0[i]);
                assert(t0[j] == s0[j]);
            }
        }
        assert(sorted_ids(t1)) by {
            assert forall|i: int, j: int| 0 <= i < j < t1.len() implies #[trigger] t1[i]
                < #[trigger] t1[j] by {
                assert(t1[i] == s1[i]);
                assert(t1[j] == s1[j]);
            }
        }
        lemma_sorted_ids_equal(t0, t1);
        assert(s0 =~= t0.push(a));
        assert(s1 =~= t1.push(b));
    }
}

proof fn lemma_id_member_of_drop_last(s0: Seq<u64>, s1: Seq<u64>, k: u64)
    requires
        sorted_ids(s0),
        sorted_ids(s1),
        s0.len() > 0,
        s1.len() > 0,
        s0.last() == s1.last(),
        forall|x: u64| s0.contains(x) <==> s1.contains(x),
        s0.drop_last().contains(k),
    ensures
        s1.drop_last().contains(k),
{
    let i = choose|i: int| 0 <= i < s0.drop_last().len() && s0.drop_last()[i] == k;
    assert(s0[i] == k);
    assert(s0[i] < s0.last());
    assert(s0.contains(k));
    assert(s1.contains(k));
    let j = choose|j: int| 0 <= j < s1.len() && s1[j] == k;
    if j == s1.len() - 1 {
        assert(false);
    }
    assert(s1.drop_last()[j] == k);
    assert(s1.drop_last().contains(k));
}

/// The key sequence of a map.
pub open spec fn id_key_seq<V>(m: IdMap<V>) -> Seq<u64> {
    Seq::new(m.spec_len(), |i: int| m.spec_key(i))
}

/// Well-formed maps are canonical: equal contents mean equal entries.
pub proof fn lemma_id_canonical<V>(m0: IdMap<V>, m1: IdMap<V>)
    requires
        m0.wf(),
        m1.wf(),
        m0.as_map() == m1.as_map(),
    ensures
        m0.spec_len() == m1.spec_len(),
        forall|i: int|
            0 <= i < m0.spec_len() ==> m0.spec_key(i) == m1.spec_key(i) && m0.spec_val(i)
                == m1.spec_val(i),
{
    let s0 = id_key_seq(m0);
    let s1 = id_key_seq(m1);
    assert(sorted_ids(s0)) by {
        assert forall|i: int, j: int| 0 <= i < j < s0.len() implies #[trigger] s0[i]
            < #[trigger] s0[j] by {
            assert(s0[i] == m0.spec_key(i));
            assert(s0[j] == m0.spec_key(j));
        }
    }
    assert(sorted_ids(s1)) by {
        assert forall|i: int, j: int| 0 <= i < j < s1.len() implies #[trigger] s1[i]
            < #[trigger] s1[j] by {
            assert(s1[i] == m1.spec_key(i));
            assert(s1[j] == m1.spec_key(j));
        }
    }
    assert forall|k: u64| s0.contains(k) implies s1.contains(k) by {
        let i = choose|i: int| 0 <= i < s0.len() && s0[i] == k;
        assert(m0.spec_key(i) == k);
        assert(m0.contains_spec(k));
        assert(m0.as_map().contains_key(k));
        assert(m1.as_map().contains_key(k));
        assert(m1.contains_spec(k));
        let j = choose|j: int| 0 <= j < m1.spec_len() && m1.spec_key(j) == k;
        assert(s1[j] == k);
    }
    assert forall|k: u64| s1.contains(k) implies s0.contains(k) by {
        let i = choose|i: int| 0 <= i < s1.len() && s1[i] == k;
        assert(m1.spec_key(i) == k);
        assert(m1.contains_spec(k));
        assert(m1.as_map().contains_key(k));
        assert(m0.as_map().contains_key(k));
        assert(m0.contains_spec(k));
        let j = choose|j: int| 0 <= j < m0.spec_len() && m0.spec_key(j) == k;
        assert(s0[j] == k);
    }
    lemma_sorted_ids_equal(s0, s1);
    assert forall|i: int| 0 <= i < m0.spec_len() implies m0.spec_key(i) == m1.spec_key(i)
        && m0.spec_val(i) == m1.spec_val(i) by {
        assert(s0[i] == s1[i]);
        m0.lemma_view(i);
        m1.lemma_view(i);
    }
}

} // verus!
