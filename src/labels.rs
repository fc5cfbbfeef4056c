//! A label set: a map from label key to label value, kept sorted by key.
use vstd::prelude::*;
use crate::text::chars_of;

verus! {

/// Strict lexicographic order on character sequences, looking from
/// position `i` on (the two sequences are taken to agree before `i`).
pub open spec fn lt_from(a: Seq<char>, b: Seq<char>, i: int) -> bool
    decreases a.len() - i,
{
    if i < 0 || i >= b.len() {
        false
    } else if i >= a.len() {
        true
    } else if a[i] != b[i] {
        a[i] < b[i]
    } else {
        lt_from(a, b, i + 1)
    }
}

/// The order of keys: lexicographic by character, which is the order of
/// their UTF-8 bytes.
pub open spec fn key_lt(a: Seq<char>, b: Seq<char>) -> bool {
    lt_from(a, b, 0)
}

/// No key sorts before itself.
pub proof fn lemma_lt_irreflexive(a: Seq<char>, i: int)
    ensures
        !lt_from(a, a, i),
    decreases a.len() - i,
{
    if 0 <= i < a.len() {
        lemma_lt_irreflexive(a, i + 1);
    }
}

/// Two keys never sort before each other.
pub proof fn lemma_lt_asymmetric(a: Seq<char>, b: Seq<char>, i: int)
    requires
        lt_from(a, b, i),
    ensures
        !lt_from(b, a, i),
    decreases a.len() - i,
{
    if 0 <= i < a.len() && i < b.len() && a[i] == b[i] {
        lemma_lt_asymmetric(a, b, i + 1);
    }
}

/// Of two different keys that agree before `i`, one sorts first.
pub proof fn lemma_lt_total(a: Seq<char>, b: Seq<char>, i: int)
    requires
        0 <= i <= a.len(),
        i <= b.len(),
        a.subrange(0, i) == b.subrange(0, i),
        a != b,
    ensures
        lt_from(a, b, i) || lt_from(b, a, i),
    decreases a.len() - i,
{
    if i == a.len() && i == b.len() {
        assert(a =~= a.subrange(0, i));
        assert(b =~= b.subrange(0, i));
    } else if i < a.len() && i < b.len() && a[i] == b[i] {
        assert(a.subrange(0, i + 1) =~= a.subrange(0, i).push(a[i]));
        assert(b.subrange(0, i + 1) =~= b.subrange(0, i).push(b[i]));
        lemma_lt_total(a, b, i + 1);
    }
}

/// The order of keys is transitive.
pub proof fn lemma_lt_transitive(a: Seq<char>, b: Seq<char>, c: Seq<char>, i: int)
    requires
        lt_from(a, b, i),
        lt_from(b, c, i),
    ensures
        lt_from(a, c, i),
    decreases a.len() - i,
{
    if 0 <= i < a.len() && i < b.len() && i < c.len() && a[i] == b[i] && b[i] == c[i] {
        lemma_lt_transitive(a, b, c, i + 1);
    }
}

/// Compares two keys: negative, zero or positive as `a` sorts before, equal
/// to, or after `b`.
pub fn compare_keys(a: &Vec<char>, b: &Vec<char>) -> (r: i8)
    ensures
        (r < 0) == key_lt(a@, b@),
        (r == 0) == (a@ == b@),
        (r > 0) == key_lt(b@, a@),
{
    let mut i: usize = 0;
    while i < a.len() && i < b.len() && a[i] == b[i]
        invariant
            i <= a.len(),
            i <= b.len(),
            a@.subrange(0, i as int) == b@.subrange(0, i as int),
            lt_from(a@, b@, 0) == lt_from(a@, b@, i as int),
            lt_from(b@, a@, 0) == lt_from(b@, a@, i as int),
        decreases a.len() - i,
    {
        assert(a@.subrange(0, i + 1) =~= a@.subrange(0, i as int).push(a@[i as int]));
        assert(b@.subrange(0, i + 1) =~= b@.subrange(0, i as int).push(b@[i as int]));
        i = i + 1;
    }
    proof {
        lemma_lt_irreflexive(a@, 0);
        if a@ != b@ {
            lemma_lt_total(a@, b@, i as int);
        }
        if lt_from(a@, b@, 0) {
            lemma_lt_asymmetric(a@, b@, 0);
        }
    }
    if i < a.len() && i < b.len() {
        if a[i] < b[i] {
            -1
        } else {
            1
        }
    } else if i < b.len() {
        -1
    } else if i < a.len() {
        1
    } else {
        assert(a@ =~= a@.subrange(0, i as int));
        assert(b@ =~= b@.subrange(0, i as int));
        0
    }
}

/// Pairs strictly increasing by key.
pub open spec fn sorted_by_key(p: Seq<(Seq<char>, Seq<char>)>) -> bool {
    forall|i: int, j: int| 0 <= i < j < p.len() ==> key_lt(#[trigger] p[i].0, #[trigger] p[j].0)
}

/// A position of key `k` among the pairs, if there is one.
pub open spec fn position_of(p: Seq<(Seq<char>, Seq<char>)>, k: Seq<char>) -> int {
    choose|i: int| 0 <= i < p.len() && p[i].0 == k
}

/// The map that a sequence of pairs with distinct keys stands for.
pub open spec fn map_of(p: Seq<(Seq<char>, Seq<char>)>) -> Map<Seq<char>, Seq<char>> {
    Map::new(
        |k: Seq<char>| exists|i: int| 0 <= i < p.len() && p[i].0 == k,
        |k: Seq<char>| p[position_of(p, k)].1,
    )
}

/// Sorted pairs have distinct keys.
pub proof fn lemma_sorted_keys_distinct(p: Seq<(Seq<char>, Seq<char>)>, i: int, j: int)
    requires
        sorted_by_key(p),
        0 <= i < p.len(),
        0 <= j < p.len(),
        i != j,
    ensures
        p[i].0 != p[j].0,
{
    lemma_lt_irreflexive(p[i].0, 0);
    if i < j {
        assert(key_lt(p[i].0, p[j].0));
    } else {
        assert(key_lt(p[j].0, p[i].0));
    }
}

/// Each pair of sorted pairs is an entry of their map.
pub proof fn lemma_map_of_index(p: Seq<(Seq<char>, Seq<char>)>, i: int)
    requires
        sorted_by_key(p),
        0 <= i < p.len(),
    ensures
        map_of(p).contains_key(p[i].0),
        map_of(p)[p[i].0] == p[i].1,
{
    let k = p[i].0;
    assert(0 <= i < p.len() && p[i].0 == k);
    assert(map_of(p).contains_key(k));
    let j = position_of(p, k);
    if j != i {
        lemma_sorted_keys_distinct(p, i, j);
    }
}

/// Extending sorted pairs by one pair extends their map by that pair.
pub proof fn lemma_map_of_push(p: Seq<(Seq<char>, Seq<char>)>, n: int)
    requires
        sorted_by_key(p),
        0 <= n < p.len(),
    ensures
        map_of(p.subrange(0, n + 1)) == map_of(p.subrange(0, n)).insert(p[n].0, p[n].1),
{
    let a = p.subrange(0, n);
    let b = p.subrange(0, n + 1);
    assert(sorted_by_key(b));
    assert(sorted_by_key(a));
    assert forall|k: Seq<char>| #[trigger] map_of(b).contains_key(k) == map_of(a).insert(p[n].0, p[n].1).contains_key(k) by {
        if map_of(b).contains_key(k) {
            let j = choose|j: int| 0 <= j < b.len() && b[j].0 == k;
            if j < n {
                assert(a[j].0 == k);
            }
        }
        if map_of(a).contains_key(k) {
            let j = choose|j: int| 0 <= j < a.len() && a[j].0 == k;
            assert(b[j].0 == k);
        }
        if k == p[n].0 {
            assert(b[n].0 == k);
        }
    }
    assert forall|k: Seq<char>| #[trigger] map_of(b).contains_key(k) implies map_of(b)[k] == map_of(a).insert(p[n].0, p[n].1)[k] by {
        let j = choose|j: int| 0 <= j < b.len() && b[j].0 == k;
        lemma_map_of_index(b, j);
        if j < n {
            lemma_map_of_index(a, j);
            lemma_sorted_keys_distinct(b, j, n);
        }
    }
    assert(map_of(b) =~= map_of(a).insert(p[n].0, p[n].1));
}

/// A label set: keys are unique and the entries are kept in key order.
#[derive(Debug)]
pub struct Labels {
    entries: Vec<(String, String)>,
}

impl Labels {
    /// The entries, as (key, value) pairs in key order.
    pub closed spec fn pairs(&self) -> Seq<(Seq<char>, Seq<char>)> {
        self.entries@.map_values(|e: (String, String)| (e.0@, e.1@))
    }

    /// The entries are sorted by key; so their keys are unique.
    pub open spec fn wf(&self) -> bool {
        sorted_by_key(self.pairs())
    }

    /// An empty label set.
    pub fn new() -> (r: Labels)
        ensures
            r.wf(),
            r@ == Map::<Seq<char>, Seq<char>>::empty(),
            r.pairs().len() == 0,
    {
        let r = Labels { entries: Vec::new() };
        assert(r.pairs() =~= Seq::empty());
        assert(r@ =~= Map::<Seq<char>, Seq<char>>::empty());
        r
    }

    /// The number of labels.
    pub fn len(&self) -> (r: usize)
        requires
            self.wf(),
        ensures
            r == self.pairs().len(),
            r == self@.len(),
    {
        proof {
            self.lemma_len();
        }
        self.entries.len()
    }

    proof fn lemma_len(&self)
        requires
            self.wf(),
        ensures
            self.pairs().len() == self@.len(),
    {
        let p = self.pairs();
        let keys = Seq::new(p.len(), |i: int| p[i].0);
        assert forall|i: int, j: int| 0 <= i < j < keys.len() implies keys[i] != keys[j] by {
            lemma_sorted_keys_distinct(p, i, j);
        }
        keys.unique_seq_to_set();
        assert(keys.to_set() =~= self@.dom()) by {
            assert forall|k: Seq<char>| #[trigger] self@.dom().contains(k) implies keys.to_set().contains(k) by {
                let i = choose|i: int| 0 <= i < p.len() && p[i].0 == k;
                assert(keys[i] == k);
            }
            assert forall|k: Seq<char>| #[trigger] keys.to_set().contains(k) implies self@.dom().contains(k) by {
                let i = choose|i: int| 0 <= i < keys.len() && keys[i] == k;
                assert(p[i].0 == k);
            }
        }
    }

    /// Whether the set holds no label.
    pub fn is_empty(&self) -> (r: bool)
        requires
            self.wf(),
        ensures
            r == (self@.len() == 0),
    {
        self.len() == 0
    }

    /// The `i`-th label in key order.
    pub fn entry(&self, i: usize) -> (r: (&String, &String))
        requires
            self.wf(),
            i < self.pairs().len(),
        ensures
            (r.0@, r.1@) == self.pairs()[i as int],
            self@.contains_key(r.0@),
            self@[r.0@] == r.1@,
    {
        proof {
            lemma_map_of_index(self.pairs(), i as int);
        }
        let e = &self.entries[i];
        (&e.0, &e.1)
    }

    /// Sets the value of `key` to `value`, keeping every other label.
    pub fn insert(&mut self, key: String, value: String)
        requires
            old(self).wf(),
        ensures
            final(self).wf(),
            final(self)@ == old(self)@.insert(key@, value@),
    {
        let ghost p0 = self.pairs();
        let ghost k = key@;
        let kc = chars_of(key.as_str());
        let mut i: usize = 0;
        let mut done = false;
        while !done && i < self.entries.len()
            invariant
                self.pairs() == p0,
                sorted_by_key(p0),
                kc@ == k,
                i <= p0.len(),
                forall|j: int| 0 <= j < i ==> key_lt(#[trigger] p0[j].0, k),
                done ==> i < p0.len() && !key_lt(p0[i as int].0, k),
            decreases p0.len() - i + if done { 0int } else { 1int },
        {
            assert(self.entries@[i as int].0@ == p0[i as int].0);
            let c = compare_keys(&chars_of(self.entries[i].0.as_str()), &kc);
            if c < 0 {
                i = i + 1;
            } else {
                done = true;
            }
        }
        let ghost v = value@;
        if i < self.entries.len() && self.entries[i].0 == key {
            assert(self.entries@[i as int].0@ == p0[i as int].0);
            self.entries.set(i, (key, value));
            proof {
                let p1 = self.pairs();
                assert(p1 =~= p0.update(i as int, (k, v)));
                assert(sorted_by_key(p1));
                assert forall|q: Seq<char>| #[trigger] map_of(p1).contains_key(q) == map_of(p0).insert(k, v).contains_key(q) by {
                    if map_of(p1).contains_key(q) {
                        let j = choose|j: int| 0 <= j < p1.len() && p1[j].0 == q;
                        assert(p0[j].0 == q);
                    }
                    if map_of(p0).contains_key(q) {
                        let j = choose|j: int| 0 <= j < p0.len() && p0[j].0 == q;
                        assert(p1[j].0 == q);
                    }
                    if q == k {
                        assert(p1[i as int].0 == q);
                    }
                }
                assert forall|q: Seq<char>| #[trigger] map_of(p1).contains_key(q) implies map_of(p1)[q] == map_of(p0).insert(k, v)[q] by {
                    let j = choose|j: int| 0 <= j < p1.len() && p1[j].0 == q;
                    lemma_map_of_index(p1, j);
                    lemma_map_of_index(p0, j);
                }
                assert(map_of(p1) =~= map_of(p0).insert(k, v));
            }
        } else {
            proof {
                if i < p0.len() {
                    assert(self.entries@[i as int].0@ == p0[i as int].0);
                    assert(k.subrange(0, 0) =~= p0[i as int].0.subrange(0, 0));
                    lemma_lt_total(k, p0[i as int].0, 0);
                }
            }
            self.entries.insert(i, (key, value));
            proof {
                let p1 = self.pairs();
                let n = i as int;
                assert(p1 =~= p0.insert(n, (k, v)));
                assert forall|a: int, b: int| 0 <= a < b < p1.len() implies key_lt(#[trigger] p1[a].0, #[trigger] p1[b].0) by {
                    if b == n {
                    } else if a == n {
                        if b - 1 > n {
                            assert(key_lt(p0[n].0, p0[b - 1].0));
                            lemma_lt_transitive(k, p0[n].0, p0[b - 1].0, 0);
                        }
                    } else if a < n && b > n {
                        assert(key_lt(p0[a].0, k));
                        if n < p0.len() {
                            assert(key_lt(k, p0[n].0));
                            lemma_lt_transitive(p0[a].0, k, p0[n].0, 0);
                            if b - 1 > n {
                                assert(key_lt(p0[n].0, p0[b - 1].0));
                                lemma_lt_transitive(p0[a].0, p0[n].0, p0[b - 1].0, 0);
                            }
                        }
                    } else if a > n {
                        assert(key_lt(p0[a - 1].0, p0[b - 1].0));
                    } else {
                        assert(key_lt(p0[a].0, p0[b].0));
                    }
                }
                assert(sorted_by_key(p1));
                assert forall|q: Seq<char>| #[trigger] map_of(p1).contains_key(q) == map_of(p0).insert(k, v).contains_key(q) by {
                    if map_of(p1).contains_key(q) {
                        let j = choose|j: int| 0 <= j < p1.len() && p1[j].0 == q;
                        if j < n {
                            assert(p0[j].0 == q);
                        } else if j > n {
                            assert(p0[j - 1].0 == q);
                        }
                    }
                    if map_of(p0).contains_key(q) {
                        let j = choose|j: int| 0 <= j < p0.len() && p0[j].0 == q;
                        if j < n {
                            assert(p1[j].0 == q);
                        } else {
                            assert(p1[j + 1].0 == q);
                        }
                    }
                    if q == k {
                        assert(p1[n].0 == q);
                    }
                }
                assert forall|q: Seq<char>| #[trigger] map_of(p1).contains_key(q) implies map_of(p1)[q] == map_of(p0).insert(k, v)[q] by {
                    let j = choose|j: int| 0 <= j < p1.len() && p1[j].0 == q;
                    lemma_map_of_index(p1, j);
                    if j < n {
                        lemma_map_of_index(p0, j);
                        lemma_sorted_keys_distinct(p1, j, n);
                    } else if j > n {
                        lemma_map_of_index(p0, j - 1);
                        lemma_sorted_keys_distinct(p1, j, n);
                    }
                }
                assert(map_of(p1) =~= map_of(p0).insert(k, v));
            }
        }
    }
}

impl PartialEq for Labels {
    fn eq(&self, other: &Labels) -> (r: bool) {
        if self.entries.len() != other.entries.len() {
            assert(self.pairs().len() != other.pairs().len());
            return false;
        }
        let mut i: usize = 0;
        while i < self.entries.len()
            invariant
                i <= self.entries.len() == other.entries.len(),
                forall|j: int| 0 <= j < i ==> self.pairs()[j] == other.pairs()[j],
            decreases self.entries.len() - i,
        {
            let a = &self.entries[i];
            let b = &other.entries[i];
            if !(a.0 == b.0 && a.1 == b.1) {
                assert(self.pairs()[i as int] != other.pairs()[i as int]);
                return false;
            }
            i = i + 1;
        }
        assert(self.pairs() =~= other.pairs());
        true
    }
}

impl vstd::std_specs::cmp::PartialEqSpecImpl for Labels {
    open spec fn obeys_eq_spec() -> bool {
        true
    }

    open spec fn eq_spec(&self, other: &Labels) -> bool {
        self.pairs() == other.pairs()
    }
}

impl View for Labels {
    type V = Map<Seq<char>, Seq<char>>;

    open spec fn view(&self) -> Map<Seq<char>, Seq<char>> {
        map_of(self.pairs())
    }
}

} // verus!
