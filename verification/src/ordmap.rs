//! String-keyed maps held in strictly increasing key order.
//!
//! Every keyed collection of the module tree is one of these, so that the
//! final iteration order depends only on the key values and never on the
//! order in which descriptors were registered: two maps with the same
//! contents are the same value, entry for entry.

use vstd::prelude::*;
use crate::text::{lex_lt, lemma_lex_lt_total, lemma_lex_lt_asymm, lemma_lex_lt_irrefl, lemma_lex_lt_trans, string_lt, string_eq};

verus! {

/// A map from strings to values, held as a vector of entries sorted
/// strictly by key.
pub struct OrderedMap<V> {
    pub entries: Vec<(String, V)>,
}

impl<V> OrderedMap<V> {
    pub open spec fn spec_len(self) -> nat {
        self.entries@.len()
    }

    pub open spec fn spec_key(self, i: int) -> Seq<char> {
        self.entries@[i].0@
    }

    pub open spec fn spec_val(self, i: int) -> V {
        self.entries@[i].1
    }

    /// Keys occur in strictly increasing order (hence each at most once).
    pub open spec fn wf(self) -> bool {
        forall|i: int, j: int|
            0 <= i < j < self.spec_len() ==> lex_lt(
                #[trigger] self.spec_key(i),
                #[trigger] self.spec_key(j),
            )
    }

    pub open spec fn contains_spec(self, k: Seq<char>) -> bool {
        exists|i: int| 0 <= i < self.spec_len() && self.spec_key(i) == k
    }

    /// The contents, as a mathematical map over the key views.
    pub open spec fn as_map(self) -> Map<Seq<char>, V> {
        Map::new(
            |k: Seq<char>| self.contains_spec(k),
            |k: Seq<char>|
                self.spec_val(
                    choose|i: int| 0 <= i < self.spec_len() && self.spec_key(i) == k,
                ),
        )
    }

    /// In a well-formed map each key determines its position.
    pub proof fn lemma_key_unique(self, i: int, j: int)
        requires
            self.wf(),
            0 <= i < self.spec_len(),
            0 <= j < self.spec_len(),
            self.spec_key(i) == self.spec_key(j),
        ensures
            i == j,
    {
        if i < j {
            assert(lex_lt(self.spec_key(i), self.spec_key(j)));
            lemma_lex_lt_asymm(self.spec_key(i), self.spec_key(j));
        } else if j < i {
            assert(lex_lt(self.spec_key(j), self.spec_key(i)));
            lemma_lex_lt_asymm(self.spec_key(j), self.spec_key(i));
        }
    }

    /// The map view reads back exactly the entries.
    pub proof fn lemma_view(self, i: int)
        requires
            self.wf(),
            0 <= i < self.spec_len(),
        ensures
            self.as_map().contains_key(self.spec_key(i)),
            self.as_map()[self.spec_key(i)] == self.spec_val(i),
    {
        let k = self.spec_key(i);
        assert(self.contains_spec(k));
        let j = choose|j: int| 0 <= j < self.spec_len() && self.spec_key(j) == k;
        self.lemma_key_unique(i, j);
    }

    pub fn new() -> (r: Self)
        ensures
            r.wf(),
            r.spec_len() == 0,
            r.as_map() =~= Map::<Seq<char>, V>::empty(),
    {
        OrderedMap { entries: Vec::new() }
    }

    pub fn len(&self) -> (r: usize)
        ensures
            r == self.spec_len(),
    {
        self.entries.len()
    }

    pub fn key_at(&self, i: usize) -> (r: &String)
        requires
            i < self.spec_len(),
        ensures
            r@ == self.spec_key(i as int),
    {
        &self.entries[i].0
    }

    pub fn value_at(&self, i: usize) -> (r: &V)
        requires
            i < self.spec_len(),
        ensures
            *r == self.spec_val(i as int),
    {
        &self.entries[i].1
    }

    /// A mutable borrow of one value; the keys and the other values stay.
    pub fn value_at_mut(&mut self, i: usize) -> (r: &mut V)
        requires
            i < old(self).spec_len(),
        ensures
            *r == old(self).spec_val(i as int),
            final(self).spec_len() == old(self).spec_len(),
            forall|j: int|
                0 <= j < old(self).spec_len() ==> final(self).spec_key(j) == old(self).spec_key(j),
            forall|j: int|
                0 <= j < old(self).spec_len() && j != i ==> final(self).spec_val(j) == old(
                    self,
                ).spec_val(j),
            final(self).spec_val(i as int) == *final(r),
    {
        let e = &mut self.entries[i];
        &mut e.1
    }

    /// Membership among the entries and membership in the map view
    /// coincide.
    pub proof fn lemma_contains_iff_key(self)
        requires
            self.wf(),
        ensures
            forall|x: Seq<char>|
                #[trigger] self.contains_spec(x) <==> self.as_map().contains_key(x),
    {
        assert forall|x: Seq<char>|
            self.contains_spec(x) <==> self.as_map().contains_key(x) by {
            if self.contains_spec(x) {
                let w = choose|w: int| 0 <= w < self.spec_len() && self.spec_key(w) == x;
                self.lemma_view(w);
            }
        }
    }

    /// Keys alone decide well-formedness: a map whose keys match a
    /// well-formed map's keys position for position is well-formed.
    pub proof fn lemma_wf_from_same_keys(m0: Self, m1: Self)
        requires
            m0.wf(),
            m1.spec_len() == m0.spec_len(),
            forall|j: int| 0 <= j < m0.spec_len() ==> m1.spec_key(j) == m0.spec_key(j),
        ensures
            m1.wf(),
    {
        assert forall|i: int, j: int| 0 <= i < j < m1.spec_len() implies lex_lt(
            #[trigger] m1.spec_key(i),
            #[trigger] m1.spec_key(j),
        ) by {
            assert(m1.spec_key(i) == m0.spec_key(i));
            assert(m1.spec_key(j) == m0.spec_key(j));
        }
    }

    /// Replacing one value in place remaps exactly that entry's key.
    pub proof fn lemma_value_update(m0: Self, m1: Self, i: int)
        requires
            m0.wf(),
            0 <= i < m0.spec_len(),
            m1.spec_len() == m0.spec_len(),
            forall|j: int| 0 <= j < m0.spec_len() ==> m1.spec_key(j) == m0.spec_key(j),
            forall|j: int| 0 <= j < m0.spec_len() && j != i ==> m1.spec_val(j) == m0.spec_val(j),
        ensures
            m1.wf(),
            m1.as_map() == m0.as_map().insert(m0.spec_key(i), m1.spec_val(i)),
    {
        Self::lemma_wf_from_same_keys(m0, m1);
        lemma_map_update(m0, m1, i, m0.spec_key(i), m1.spec_val(i));
    }

    /// Index of the entry holding key `k`, if any.
    pub fn find(&self, k: &String) -> (r: Option<usize>)
        requires
            self.wf(),
        ensures
            match r {
                Some(i) => i < self.spec_len() && self.spec_key(i as int) == k@,
                None => !self.contains_spec(k@),
            },
    {
        let n = self.entries.len();
        let mut i: usize = 0;
        while i < n
            invariant
                0 <= i <= n,
                n == self.spec_len(),
                self.wf(),
                forall|j: int| 0 <= j < i ==> self.spec_key(j) != k@,
            decreases n - i,
        {
            if string_eq(&self.entries[i].0, k) {
                return Some(i);
            }
            i = i + 1;
        }
        None
    }

    /// The value under key `k`, if any.
    pub fn get(&self, k: &String) -> (r: Option<&V>)
        requires
            self.wf(),
        ensures
            match r {
                Some(v) => self.contains_spec(k@) && self.as_map().contains_key(k@) && *v
                    == self.as_map()[k@],
                None => !self.contains_spec(k@),
            },
    {
        match self.find(k) {
            Some(i) => {
                proof {
                    self.lemma_view(i as int);
                }
                Some(self.value_at(i))
            },
            None => None,
        }
    }

    /// Inserts `v` under `k`, replacing any value already there.
    pub fn insert(&mut self, k: String, v: V)
        requires
            old(self).wf(),
        ensures
            final(self).wf(),
            final(self).as_map() == old(self).as_map().insert(k@, v),
            final(self).spec_len() == if old(self).contains_spec(k@) {
                old(self).spec_len()
            } else {
                old(self).spec_len() + 1
            },
    {
        let ghost old_self = *self;
        let n = self.entries.len();
        let mut i: usize = 0;
        while i < n && string_lt(&self.entries[i].0, &k)
            invariant
                0 <= i <= n,
                n == self.spec_len(),
                *self == old_self,
                self.wf(),
                forall|j: int| 0 <= j < i ==> lex_lt(#[trigger] self.spec_key(j), k@),
            decreases n - i,
        {
            i = i + 1;
        }
        proof {
            if i < n {
                lemma_lex_lt_total(self.spec_key(i as int), k@);
            }
        }
        let hit = i < n && string_eq(&self.entries[i].0, &k);
        if hit {
            let ghost kk = k@;
            let e = &mut self.entries[i];
            *e = (k, v);
            proof {
                let m = *self;
                assert forall|p: int, q: int| 0 <= p < q < m.spec_len() implies lex_lt(
                    #[trigger] m.spec_key(p),
                    #[trigger] m.spec_key(q),
                ) by {
                    assert(old_self.spec_key(p) == m.spec_key(p));
                    assert(old_self.spec_key(q) == m.spec_key(q));
                }
                assert(m.wf());
                lemma_map_update(old_self, m, i as int, kk, v);
                assert(m.as_map() =~= old_self.as_map().insert(kk, v));
                assert(old_self.contains_spec(kk));
            }
        } else {
            let ghost kk = k@;
            proof {
                if i < n {
                    assert(old_self.spec_key(i as int) != kk);
                    assert(lex_lt(kk, old_self.spec_key(i as int)));
                }
            }
            self.entries.insert(i, (k, v));
            proof {
                let m = *self;
                assert(m.spec_len() == old_self.spec_len() + 1);
                assert forall|p: int, q: int| 0 <= p < q < m.spec_len() implies lex_lt(
                    #[trigger] m.spec_key(p),
                    #[trigger] m.spec_key(q),
                ) by {
                    lemma_insert_keys(old_self, m, i as int, kk, p, q);
                }
                assert(m.wf());
                assert(!old_self.contains_spec(kk)) by {
                    if old_self.contains_spec(kk) {
                        let w = choose|w: int|
                            0 <= w < old_self.spec_len() && old_self.spec_key(w) == kk;
                        if w < i {
                            lemma_lex_lt_asymm(old_self.spec_key(w), kk);
                        } else if w == i {
                        } else {
                            assert(lex_lt(old_self.spec_key(i as int), old_self.spec_key(w)));
                            lemma_lex_lt_trans(kk, old_self.spec_key(i as int), old_self.spec_key(w));
                            lemma_lex_lt_irrefl(kk);
                        }
                    }
                }
                lemma_map_insert(old_self, m, i as int, kk, v);
                assert(m.as_map() =~= old_self.as_map().insert(kk, v));
            }
        }
    }
}

/// After overwriting position `i` with `(k, v)` where the key already read
/// `k`, the map view is the old view with `k` remapped to `v`.
proof fn lemma_map_update<V>(m0: OrderedMap<V>, m1: OrderedMap<V>, i: int, k: Seq<char>, v: V)
    requires
        m0.wf(),
        m1.wf(),
        0 <= i < m0.spec_len(),
        m1.spec_len() == m0.spec_len(),
        m0.spec_key(i) == k,
        m1.spec_key(i) == k,
        m1.spec_val(i) == v,
        forall|j: int| 0 <= j < m0.spec_len() && j != i ==> m1.spec_key(j) == m0.spec_key(j),
        forall|j: int| 0 <= j < m0.spec_len() && j != i ==> m1.spec_val(j) == m0.spec_val(j),
    ensures
        m1.as_map() =~= m0.as_map().insert(k, v),
{
    assert forall|key: Seq<char>| m1.as_map().contains_key(key) implies m0.as_map().insert(
        k,
        v,
    ).contains_key(key) by {
        let j = choose|j: int| 0 <= j < m1.spec_len() && m1.spec_key(j) == key;
        if j != i {
            assert(m0.contains_spec(key));
        }
    }
    assert forall|key: Seq<char>| m0.as_map().insert(k, v).contains_key(key) implies m1.as_map(
    ).contains_key(key) by {
        if key == k {
            assert(m1.contains_spec(key));
        } else {
            let j = choose|j: int| 0 <= j < m0.spec_len() && m0.spec_key(j) == key;
            assert(m1.spec_key(j) == key);
            assert(m1.contains_spec(key));
        }
    }
    assert forall|key: Seq<char>| m1.as_map().contains_key(key) implies m1.as_map()[key] == m0.as_map(
    ).insert(k, v)[key] by {
        let j = choose|j: int| 0 <= j < m1.spec_len() && m1.spec_key(j) == key;
        m1.lemma_view(j);
        if key == k {
            m1.lemma_key_unique(j, i);
        } else {
            assert(j != i);
            assert(m0.spec_key(j) == key);
            m0.lemma_view(j);
        }
    }
}

/// Keys stay sorted when `(k, v)` enters at the found position.
proof fn lemma_insert_keys<V>(
    m0: OrderedMap<V>,
    m1: OrderedMap<V>,
    i: int,
    k: Seq<char>,
    p: int,
    q: int,
)
    requires
        m0.wf(),
        0 <= i <= m0.spec_len(),
        m1.spec_len() == m0.spec_len() + 1,
        forall|j: int| 0 <= j < i ==> m1.spec_key(j) == m0.spec_key(j),
        m1.spec_key(i) == k,
        forall|j: int| i < j < m1.spec_len() ==> m1.spec_key(j) == m0.spec_key(j - 1),
        forall|j: int| 0 <= j < i ==> lex_lt(#[trigger] m0.spec_key(j), k),
        i < m0.spec_len() ==> lex_lt(k, m0.spec_key(i)),
        0 <= p < q < m1.spec_len(),
    ensures
        lex_lt(m1.spec_key(p), m1.spec_key(q)),
{
    if p < i && q < i {
    } else if p < i && q == i {
    } else if p == i && q > i {
        if q - 1 > i - 1 + 1 {
            assert(lex_lt(m0.spec_key(i), m0.spec_key(q - 1)));
            lemma_lex_lt_trans(k, m0.spec_key(i), m0.spec_key(q - 1));
        }
    } else if p < i && q > i {
        if q - 1 == i {
            assert(lex_lt(m0.spec_key(p), k));
            if i < m0.spec_len() {
                lemma_lex_lt_trans(m0.spec_key(p), k, m0.spec_key(i));
            }
        } else {
            assert(lex_lt(m0.spec_key(p), m0.spec_key(q - 1)));
        }
    } else {
        assert(p > i && q > i);
        assert(lex_lt(m0.spec_key(p - 1), m0.spec_key(q - 1)));
    }
}

/// After inserting a fresh `(k, v)` at the found position, the map view is
/// the old view extended with `k`.
proof fn lemma_map_insert<V>(m0: OrderedMap<V>, m1: OrderedMap<V>, i: int, k: Seq<char>, v: V)
    requires
        m0.wf(),
        m1.wf(),
        0 <= i <= m0.spec_len(),
        m1.spec_len() == m0.spec_len() + 1,
        forall|j: int| 0 <= j < i ==> m1.spec_key(j) == m0.spec_key(j) && m1.spec_val(j)
            == m0.spec_val(j),
        m1.spec_key(i) == k,
        m1.spec_val(i) == v,
        forall|j: int| i < j < m1.spec_len() ==> m1.spec_key(j) == m0.spec_key(j - 1)
            && m1.spec_val(j) == m0.spec_val(j - 1),
        !m0.contains_spec(k),
    ensures
        m1.as_map() =~= m0.as_map().insert(k, v),
{
    assert forall|key: Seq<char>| m1.as_map().contains_key(key) implies m0.as_map().insert(
        k,
        v,
    ).contains_key(key) by {
        let j = choose|j: int| 0 <= j < m1.spec_len() && m1.spec_key(j) == key;
        if j < i {
            assert(m0.spec_key(j) == key);
            assert(m0.contains_spec(key));
        } else if j > i {
            assert(m0.spec_key(j - 1) == key);
            assert(m0.contains_spec(key));
        }
    }
    assert forall|key: Seq<char>| m0.as_map().insert(k, v).contains_key(key) implies m1.as_map(
    ).contains_key(key) by {
        if key == k {
            assert(m1.spec_key(i) == key);
            assert(m1.contains_spec(key));
        } else {
            let j = choose|j: int| 0 <= j < m0.spec_len() && m0.spec_key(j) == key;
            if j < i {
                assert(m1.spec_key(j) == key);
            } else {
                assert(m1.spec_key(j + 1) == key);
            }
            assert(m1.contains_spec(key));
        }
    }
    assert forall|key: Seq<char>| m1.as_map().contains_key(key) implies m1.as_map()[key] == m0.as_map(
    ).insert(k, v)[key] by {
        let j = choose|j: int| 0 <= j < m1.spec_len() && m1.spec_key(j) == key;
        m1.lemma_view(j);
        if key == k {
            m1.lemma_key_unique(j, i);
        } else {
            assert(j != i) by {
                m1.lemma_key_unique(j, j);
            }
            if j < i {
                assert(m0.spec_key(j) == key);
                m0.lemma_view(j);
                assert(m1.spec_val(j) == m0.spec_val(j));
            } else {
                assert(m0.spec_key(j - 1) == key);
                m0.lemma_view(j - 1);
                assert(m1.spec_val(j) == m0.spec_val(j - 1));
            }
        }
    }
}

impl OrderedMap<()> {
    /// The keys, as a set; meaningful with or without sortedness.
    pub open spec fn key_set(self) -> Set<Seq<char>> {
        Set::new(|k: Seq<char>| self.contains_spec(k))
    }

    /// Adds every key of `other` to `self`.
    pub fn union_into(&mut self, other: &OrderedMap<()>)
        requires
            old(self).wf(),
        ensures
            final(self).wf(),
            forall|k: Seq<char>|
                #[trigger] final(self).contains_spec(k) <==> old(self).contains_spec(k)
                    || other.contains_spec(k),
    {
        let ghost base = *self;
        let n = other.len();
        let mut i: usize = 0;
        while i < n
            invariant
                0 <= i <= n,
                n == other.spec_len(),
                self.wf(),
                forall|j: int| 0 <= j < i ==> self.contains_spec(#[trigger] other.spec_key(j)),
                forall|k: Seq<char>|
                    #[trigger] self.contains_spec(k) ==> base.contains_spec(k)
                        || other.contains_spec(k),
                forall|k: Seq<char>|
                    #[trigger] base.contains_spec(k) ==> self.contains_spec(k),
            decreases n - i,
        {
            let ghost before = *self;
            let key = clone_string(&other.entries[i].0);
            self.insert(key, ());
            proof {
                let kk = other.spec_key(i as int);
                assert(self.as_map() == before.as_map().insert(kk, ()));
                assert forall|j: int| 0 <= j < i + 1 implies self.contains_spec(
                    #[trigger] other.spec_key(j),
                ) by {
                    let k = other.spec_key(j);
                    if j < i {
                        assert(before.contains_spec(k));
                        let w = choose|w: int|
                            0 <= w < before.spec_len() && before.spec_key(w) == k;
                        before.lemma_view(w);
                        assert(self.as_map().contains_key(k));
                    } else {
                        assert(self.as_map().contains_key(k));
                    }
                    assert(self.contains_spec(k)) by {
                        if !self.contains_spec(k) {
                            assert(!self.as_map().contains_key(k));
                        }
                    }
                }
                assert forall|k: Seq<char>| #[trigger] self.contains_spec(k) implies
                    base.contains_spec(k) || other.contains_spec(k) by {
                    assert(self.as_map().contains_key(k));
                    assert(before.as_map().insert(kk, ()).contains_key(k));
                    if k == kk {
                        assert(0 <= i < other.spec_len() && other.spec_key(i as int) == k);
                        assert(other.contains_spec(k));
                    } else {
                        assert(before.as_map().contains_key(k));
                        assert(before.contains_spec(k));
                    }
                }
                assert forall|k: Seq<char>| #[trigger] base.contains_spec(k) implies
                    self.contains_spec(k) by {
                    assert(before.contains_spec(k));
                    let w = choose|w: int|
                        0 <= w < before.spec_len() && before.spec_key(w) == k;
                    before.lemma_view(w);
                    assert(self.as_map().contains_key(k));
                    assert(self.contains_spec(k)) by {
                        if !self.contains_spec(k) {
                            assert(!self.as_map().contains_key(k));
                        }
                    }
                }
            }
            i = i + 1;
        }
        proof {
            assert forall|k: Seq<char>|
                self.contains_spec(k) <==> (base.contains_spec(k) || other.contains_spec(k)) by {
                if other.contains_spec(k) {
                    let j = choose|j: int|
                        0 <= j < other.spec_len() && other.spec_key(j) == k;
                    assert(self.contains_spec(other.spec_key(j)));
                }
            }
        }
    }

    /// Whether key `k` is present.
    pub fn contains(&self, k: &String) -> (r: bool)
        requires
            self.wf(),
        ensures
            r == self.contains_spec(k@),
    {
        match self.find(k) {
            Some(_) => true,
            None => false,
        }
    }
}

/// Clones a string; the copy reads back the same characters.
pub fn clone_string(s: &String) -> (r: String)
    ensures
        r == *s,
{
    s.clone()
}

/// Keys occur in strictly increasing order.
pub open spec fn sorted_keys(s: Seq<Seq<char>>) -> bool {
    forall|i: int, j: int| 0 <= i < j < s.len() ==> lex_lt(#[trigger] s[i], #[trigger] s[j])
}

/// Two strictly sorted sequences with the same members are equal.
pub proof fn lemma_sorted_seqs_equal(s0: Seq<Seq<char>>, s1: Seq<Seq<char>>)
    requires
        sorted_keys(s0),
        sorted_keys(s1),
        forall|k: Seq<char>| s0.contains(k) <==> s1.contains(k),
    ensures
        s0 == s1,
    decreases s0.len(),
{
    if s0.len() == 0 {
        if s1.len() > 0 {
            assert(s1.contains(s1[0]));
            assert(false);
        }
        assert(s0 =~= s1);
    } else {
        assert(s0.contains(s0.last()));
        assert(s1.len() > 0);
        let a = s0.last();
        let b = s1.last();
        assert(a == b) by {
            if a != b {
                lemma_lex_lt_total(a, b);
                if lex_lt(a, b) {
                    assert(s1.contains(b));
                    assert(s0.contains(b));
                    let j = choose|j: int| 0 <= j < s0.len() && s0[j] == b;
                    if j < s0.len() - 1 {
                        assert(lex_lt(s0[j], s0[s0.len() - 1]));
                        lemma_lex_lt_trans(a, b, a);
                        lemma_lex_lt_irrefl(a);
                    } else {
                        assert(a == b);
                    }
                } else {
                    assert(s0.contains(a));
                    assert(s1.contains(a));
                    let j = choose|j: int| 0 <= j < s1.len() && s1[j] == a;
                    if j < s1.len() - 1 {
                        assert(lex_lt(s1[j], s1[s1.len() - 1]));
                        lemma_lex_lt_trans(b, a, b);
                        lemma_lex_lt_irrefl(b);
                    } else {
                        assert(a == b);
                    }
                }
            }
        }
        let t0 = s0.drop_last();
        let t1 = s1.drop_last();
        assert forall|k: Seq<char>| t0.contains(k) implies t1.contains(k) by {
            lemma_member_of_drop_last(s0, s1, k);
        }
        assert forall|k: Seq<char>| t1.contains(k) implies t0.contains(k) by {
            lemma_member_of_drop_last(s1, s0, k);
        }
        assert(sorted_keys(t0)) by {
            assert forall|i: int, j: int| 0 <= i < j < t0.len() implies lex_lt(
                #[trigger] t0[i],
                #[trigger] t0[j],
            ) by {
                assert(t0[i] == s0[i]);
                assert(t0[j] == s0[j]);
            }
        }
        assert(sorted_keys(t1)) by {
            assert forall|i: int, j: int| 0 <= i < j < t1.len() implies lex_lt(
                #[trigger] t1[i],
                #[trigger] t1[j],
            ) by {
                assert(t1[i] == s1[i]);
                assert(t1[j] == s1[j]);
            }
        }
        lemma_sorted_seqs_equal(t0, t1);
        assert(s0 =~= t0.push(a));
        assert(s1 =~= t1.push(b));
    }
}

/// A member of one sorted sequence's front part, matched against another
/// sorted sequence with the same members and the same last element, lies
/// in that sequence's front part too.
proof fn lemma_member_of_drop_last(s0: Seq<Seq<char>>, s1: Seq<Seq<char>>, k: Seq<char>)
    requires
        sorted_keys(s0),
        sorted_keys(s1),
        s0.len() > 0,
        s1.len() > 0,
        s0.last() == s1.last(),
        forall|x: Seq<char>| s0.contains(x) <==> s1.contains(x),
        s0.drop_last().contains(k),
    ensures
        s1.drop_last().contains(k),
{
    let i = choose|i: int| 0 <= i < s0.drop_last().len() && s0.drop_last()[i] == k;
    assert(s0[i] == k);
    assert(lex_lt(s0[i], s0.last()));
    assert(s0.contains(k));
    assert(s1.contains(k));
    let j = choose|j: int| 0 <= j < s1.len() && s1[j] == k;
    if j == s1.len() - 1 {
        lemma_lex_lt_irrefl(k);
        assert(false);
    }
    assert(s1.drop_last()[j] == k);
    assert(s1.drop_last().contains(k));
}

/// The key sequence of a map.
pub open spec fn key_seq<V>(m: OrderedMap<V>) -> Seq<Seq<char>> {
    Seq::new(m.spec_len(), |i: int| m.spec_key(i))
}

/// Well-formed maps are canonical: equal contents mean equal entries, key
/// for key and value for value, so any two ways of building the same map
/// yield one representation.
pub proof fn lemma_canonical<V>(m0: OrderedMap<V>, m1: OrderedMap<V>)
    requires
        m0.wf(),
        m1.wf(),
        m0.as_map() == m1.as_map(),
    ensures
        m0.spec_len() == m1.spec_len(),
        forall|i: int|
            0 <= i < m0.spec_len() ==> m0.spec_key(i) == m1.spec_key(i) && m0.spec_val(i)
                == m1.spec_val(i),
{
    let s0 = key_seq(m0);
    let s1 = key_seq(m1);
    assert(sorted_keys(s0)) by {
        assert forall|i: int, j: int| 0 <= i < j < s0.len() implies lex_lt(
            #[trigger] s0[i],
            #[trigger] s0[j],
        ) by {
            assert(s0[i] == m0.spec_key(i));
            assert(s0[j] == m0.spec_key(j));
        }
    }
    assert(sorted_keys(s1)) by {
        assert forall|i: int, j: int| 0 <= i < j < s1.len() implies lex_lt(
            #[trigger] s1[i],
            #[trigger] s1[j],
        ) by {
            assert(s1[i] == m1.spec_key(i));
            assert(s1[j] == m1.spec_key(j));
        }
    }
    assert forall|k: Seq<char>| s0.contains(k) implies s1.contains(k) by {
        let i = choose|i: int| 0 <= i < s0.len() && s0[i] == k;
        assert(m0.spec_key(i) == k);
        assert(m0.contains_spec(k));
        assert(m0.as_map().contains_key(k));
        assert(m1.as_map().contains_key(k));
        assert(m1.contains_spec(k));
        let j = choose|j: int| 0 <= j < m1.spec_len() && m1.spec_key(j) == k;
        assert(s1[j] == k);
    }
    assert forall|k: Seq<char>| s1.contains(k) implies s0.contains(k) by {
        let i = choose|i: int| 0 <= i < s1.len() && s1[i] == k;
        assert(m1.spec_key(i) == k);
        assert(m1.contains_spec(k));
        assert(m1.as_map().contains_key(k));
        assert(m0.as_map().contains_key(k));
        assert(m0.contains_spec(k));
        let j = choose|j: int| 0 <= j < m0.spec_len() && m0.spec_key(j) == k;
        assert(s0[j] == k);
    }
    lemma_sorted_seqs_equal(s0, s1);
    assert forall|i: int| 0 <= i < m0.spec_len() implies m0.spec_key(i) == m1.spec_key(i)
        && m0.spec_val(i) == m1.spec_val(i) by {
        assert(s0[i] == s1[i]);
        m0.lemma_view(i);
        m1.lemma_view(i);
    }
}

} // verus!
