//! A map kept as a vector of key/value entries with distinct keys.
//!
//! The store's tables are keyed by strings, request identifiers and resource
//! keys; each table is a `KeyedList` whose abstract value is a `Map` from the
//! keys' views to the values' views.

use super::lists_map;
use vstd::prelude::*;

verus! {

/// A key that can be compared, at run time, against the abstract key it stands for.
pub trait LookupKey: View + Sized {
    fn same_key(&self, other: &Self) -> (same: bool)
        ensures
            same == (self@ == other@),
    ;

    fn copy_key(&self) -> (copy: Self)
        ensures
            copy@ == self@,
    ;
}

/// A value kept in a keyed list, with its own well-formedness condition.
pub trait Record: View + Sized {
    spec fn inv(&self) -> bool;
}

impl LookupKey for String {
    fn same_key(&self, other: &Self) -> (same: bool) {
        self.eq(other)
    }

    fn copy_key(&self) -> (copy: Self) {
        self.clone()
    }
}

impl LookupKey for u64 {
    fn same_key(&self, other: &Self) -> (same: bool) {
        *self == *other
    }

    fn copy_key(&self) -> (copy: Self) {
        *self
    }
}

impl LookupKey for Option<u64> {
    fn same_key(&self, other: &Self) -> (same: bool) {
        match (self, other) {
            (Some(a), Some(b)) => *a == *b,
            (None, None) => true,
            _ => false,
        }
    }

    fn copy_key(&self) -> (copy: Self) {
        *self
    }
}

impl Record for u64 {
    open spec fn inv(&self) -> bool {
        true
    }
}

/// A finite map held as a vector of entries whose keys are pairwise distinct.
#[derive(Debug)]
pub struct KeyedList<Key, Val> {
    entries: Vec<(Key, Val)>,
}

impl<Key: LookupKey, Val: Record> KeyedList<Key, Val> {
    /// The number of entries.
    pub closed spec fn spec_len(&self) -> nat {
        self.entries@.len()
    }

    /// The key of the `i`-th entry, by its view.
    pub closed spec fn key_of(&self, i: int) -> Key::V {
        self.entries@[i].0@
    }

    /// The value of the `i`-th entry.
    pub closed spec fn val_of(&self, i: int) -> Val {
        self.entries@[i].1
    }

    /// Keys are pairwise distinct and every value is well formed.
    pub closed spec fn wf(&self) -> bool {
        &&& forall|i: int, j: int|
            0 <= i < self.spec_len() && 0 <= j < self.spec_len() && i != j ==> #[trigger] self.key_of(i)
                != #[trigger] self.key_of(j)
        &&& forall|i: int| 0 <= i < self.spec_len() ==> #[trigger] self.val_of(i).inv()
    }

    /// Some entry has key `k`.
    pub closed spec fn has_key(&self, k: Key::V) -> bool {
        exists|i: int| 0 <= i < self.spec_len() && #[trigger] self.key_of(i) == k
    }

    /// An entry with key `k`, if there is one.
    pub closed spec fn index_of(&self, k: Key::V) -> int {
        choose|i: int| 0 <= i < self.spec_len() && #[trigger] self.key_of(i) == k
    }

    /// The abstract map: each key to the view of its value.
    pub closed spec fn as_map(&self) -> Map<Key::V, Val::V> {
        Map::new(|k: Key::V| self.has_key(k), |k: Key::V| self.val_of(self.index_of(k))@)
    }

    /// The entry at index `i` is what the map holds for its key.
    pub proof fn lemma_entry_in_map(&self, i: int)
        requires
            self.wf(),
            0 <= i < self.spec_len(),
        ensures
            self.as_map().contains_key(self.key_of(i)),
            self.as_map()[self.key_of(i)] == self.val_of(i)@,
            self.index_of(self.key_of(i)) == i,
            self.val_of(i).inv(),
    {
        let k = self.key_of(i);
        assert(self.has_key(k));
        let j = self.index_of(k);
        assert(self.key_of(j) == k);
    }

    /// Every key of the map is held by some entry.
    pub proof fn lemma_map_key_has_entry(&self, k: Key::V) -> (i: int)
        requires
            self.wf(),
            self.as_map().contains_key(k),
        ensures
            0 <= i < self.spec_len(),
            self.key_of(i) == k,
            self.as_map()[k] == self.val_of(i)@,
            self.val_of(i).inv(),
    {
        let i = self.index_of(k);
        self.lemma_entry_in_map(i);
        i
    }

    /// A sequence holding, entry by entry, each key with `f` of its value lists the map
    /// from each key to `f` of its value.
    pub proof fn lemma_listing<X>(&self, s: Seq<(Key::V, X)>, f: spec_fn(Val::V) -> X)
        requires
            self.wf(),
            s.len() == self.spec_len(),
            forall|t: int| 0 <= t < s.len() ==> #[trigger] s[t] == (self.key_of(t), f(self.val_of(t)@)),
        ensures
            lists_map(s, self.as_map().map_values(f)),
    {
        let m = self.as_map().map_values(f);
        assert forall|i: int, j: int| 0 <= i < s.len() && 0 <= j < s.len() && i != j implies #[trigger] s[i].0
            != #[trigger] s[j].0 by {
            assert(s[i].0 == self.key_of(i));
            assert(s[j].0 == self.key_of(j));
        }
        assert forall|i: int| 0 <= i < s.len() implies #[trigger] m.contains_key(s[i].0) && m[s[i].0] == s[i].1 by {
            assert(s[i] == (self.key_of(i), f(self.val_of(i)@)));
            self.lemma_entry_in_map(i);
        }
        assert forall|k: Key::V| #[trigger] m.contains_key(k) implies exists|i: int| 0 <= i < s.len() && #[trigger] s[i].0 == k by {
            let i = self.lemma_map_key_has_entry(k);
            assert(s[i] == (self.key_of(i), f(self.val_of(i)@)));
            assert(s[i].0 == k);
        }
    }

    /// Some entry before index `upto` satisfies `p` and is sent to `y` by `g`.
    pub open spec fn listed_before<T>(
        &self,
        upto: int,
        p: spec_fn(Key::V, Val::V) -> bool,
        g: spec_fn(Key::V, Val::V) -> T,
        y: T,
    ) -> bool {
        exists|j: int|
            0 <= j < upto && p(#[trigger] self.key_of(j), self.val_of(j)@) && g(self.key_of(j), self.val_of(j)@) == y
    }

    /// One step of building, without duplicates, the list of `g` of the entries that
    /// satisfy `p` (after what `base` already holds): entry `upto` is added if it satisfies
    /// `p` and is not listed yet, and nothing is added otherwise.
    pub proof fn lemma_listing_step<T>(
        &self,
        before: Seq<T>,
        after: Seq<T>,
        upto: int,
        p: spec_fn(Key::V, Val::V) -> bool,
        g: spec_fn(Key::V, Val::V) -> T,
        base: spec_fn(T) -> bool,
    )
        requires
            0 <= upto < self.spec_len(),
            before.no_duplicates(),
            forall|y: T| #[trigger] before.contains(y) <==> (base(y) || self.listed_before(upto, p, g, y)),
            ({
                let k = self.key_of(upto);
                let v = self.val_of(upto)@;
                ||| p(k, v) && !before.contains(g(k, v)) && after == before.push(g(k, v))
                ||| after == before && (p(k, v) ==> before.contains(g(k, v)))
            }),
        ensures
            after.no_duplicates(),
            forall|y: T| #[trigger] after.contains(y) <==> (base(y) || self.listed_before(upto + 1, p, g, y)),
    {
        let k = self.key_of(upto);
        let v = self.val_of(upto)@;
        let pushed = after != before;
        if pushed {
            assert forall|a: int, b: int| 0 <= a < after.len() && 0 <= b < after.len() && a != b implies after[a]
                != after[b] by {
                if a == before.len() {
                    assert(before[b] == after[b]);
                } else if b == before.len() {
                    assert(before[a] == after[a]);
                } else {
                    assert(before[a] == after[a] && before[b] == after[b]);
                }
            }
        }
        assert forall|y: T| #[trigger] after.contains(y) implies (base(y) || self.listed_before(upto + 1, p, g, y)) by {
            let t = choose|t: int| 0 <= t < after.len() && after[t] == y;
            if t < before.len() {
                assert(before[t] == y);
                assert(before.contains(y));
                if self.listed_before(upto, p, g, y) {
                    let j = choose|j: int|
                        0 <= j < upto && p(#[trigger] self.key_of(j), self.val_of(j)@) && g(
                            self.key_of(j),
                            self.val_of(j)@,
                        ) == y;
                    assert(0 <= j < upto + 1 && p(self.key_of(j), self.val_of(j)@) && g(self.key_of(j), self.val_of(j)@) == y);
                }
            } else {
                if !pushed {
                    assert(false);
                }
                assert(y == g(k, v) && p(k, v));
                assert(0 <= upto < upto + 1 && p(self.key_of(upto), self.val_of(upto)@) && g(self.key_of(upto), self.val_of(upto)@) == y);
            }
        }
        assert forall|y: T| (base(y) || self.listed_before(upto + 1, p, g, y)) implies #[trigger] after.contains(y) by {
            if base(y) || self.listed_before(upto, p, g, y) {
                assert(before.contains(y));
                let t = choose|t: int| 0 <= t < before.len() && before[t] == y;
                assert(after[t] == y);
            } else {
                let j = choose|j: int|
                    0 <= j < upto + 1 && p(#[trigger] self.key_of(j), self.val_of(j)@) && g(
                        self.key_of(j),
                        self.val_of(j)@,
                    ) == y;
                if j < upto {
                    assert(self.listed_before(upto, p, g, y));
                }
                assert(j == upto);
                assert(y == g(k, v) && p(k, v));
                if pushed {
                    assert(after[before.len() as int] == y);
                } else {
                    assert(before.push(g(k, v)).len() != before.len());
                    assert(before.contains(y));
                }
            }
        }
    }

    /// The key of entry `upto` is not among the keys listed from the entries before it.
    pub proof fn lemma_next_key_unlisted(
        &self,
        listed: Seq<Key::V>,
        upto: int,
        p: spec_fn(Key::V, Val::V) -> bool,
        g: spec_fn(Key::V, Val::V) -> Key::V,
    )
        requires
            self.wf(),
            0 <= upto < self.spec_len(),
            forall|k: Key::V, v: Val::V| #[trigger] g(k, v) == k,
            forall|y: Key::V| #[trigger] listed.contains(y) <==> self.listed_before(upto, p, g, y),
        ensures
            !listed.contains(self.key_of(upto)),
    {
        if listed.contains(self.key_of(upto)) {
            assert(self.listed_before(upto, p, g, self.key_of(upto)));
            let j = choose|j: int|
                0 <= j < upto && p(#[trigger] self.key_of(j), self.val_of(j)@) && g(self.key_of(j), self.val_of(j)@)
                    == self.key_of(upto);
            assert(g(self.key_of(j), self.val_of(j)@) == self.key_of(j));
            self.lemma_keys_distinct(j, upto);
        }
    }

    /// The keys listed from all entries satisfying `p` are the keys of the map whose value
    /// satisfies `p`.
    pub proof fn lemma_filtered_keys(
        &self,
        s: Seq<Key::V>,
        p: spec_fn(Key::V, Val::V) -> bool,
        g: spec_fn(Key::V, Val::V) -> Key::V,
    )
        requires
            self.wf(),
            forall|k: Key::V, v: Val::V| #[trigger] g(k, v) == k,
            forall|x: Key::V| #[trigger] s.contains(x) <==> self.listed_before(self.spec_len() as int, p, g, x),
        ensures
            forall|x: Key::V|
                #[trigger] s.contains(x) <==> (self.as_map().contains_key(x) && p(x, self.as_map()[x])),
    {
        assert forall|x: Key::V|
            #[trigger] s.contains(x) <==> (self.as_map().contains_key(x) && p(x, self.as_map()[x])) by {
            if s.contains(x) {
                let j = choose|j: int|
                    0 <= j < self.spec_len() && p(#[trigger] self.key_of(j), self.val_of(j)@) && g(
                        self.key_of(j),
                        self.val_of(j)@,
                    ) == x;
                assert(g(self.key_of(j), self.val_of(j)@) == self.key_of(j));
                self.lemma_entry_in_map(j);
            }
            if self.as_map().contains_key(x) && p(x, self.as_map()[x]) {
                let j = self.lemma_map_key_has_entry(x);
                assert(g(self.key_of(j), self.val_of(j)@) == self.key_of(j));
                assert(self.listed_before(self.spec_len() as int, p, g, x));
            }
        }
    }

    /// Distinct entries hold distinct keys.
    pub proof fn lemma_keys_distinct(&self, i: int, j: int)
        requires
            self.wf(),
            0 <= i < self.spec_len(),
            0 <= j < self.spec_len(),
            i != j,
        ensures
            self.key_of(i) != self.key_of(j),
    {
    }

    pub fn new() -> (list: Self)
        ensures
            list.wf(),
            list.as_map() == Map::<Key::V, Val::V>::empty(),
            list.spec_len() == 0,
    {
        let list = KeyedList { entries: Vec::new() };
        assert(list.as_map() =~= Map::<Key::V, Val::V>::empty());
        list
    }

    pub fn len(&self) -> (n: usize)
        ensures
            n == self.spec_len(),
    {
        self.entries.len()
    }

    /// The key of the `i`-th entry.
    pub fn key_at(&self, i: usize) -> (k: &Key)
        requires
            i < self.spec_len(),
        ensures
            k@ == self.key_of(i as int),
    {
        &self.entries[i].0
    }

    /// The value of the `i`-th entry.
    pub fn value_at(&self, i: usize) -> (v: &Val)
        requires
            i < self.spec_len(),
        ensures
            *v == self.val_of(i as int),
            self.wf() ==> v.inv(),
    {
        proof {
            if self.wf() {
                assert(self.val_of(i as int).inv());
            }
        }
        &self.entries[i].1
    }

    /// The index of the entry with key `k`, if any.
    pub fn find(&self, k: &Key) -> (found: Option<usize>)
        requires
            self.wf(),
        ensures
            match found {
                Some(i) => i < self.spec_len() && self.key_of(i as int) == k@,
                None => !self.as_map().contains_key(k@),
            },
    {
        let n = self.entries.len();
        let mut i: usize = 0;
        while i < n
            invariant
                n == self.spec_len(),
                i <= n,
                forall|j: int| 0 <= j < i ==> #[trigger] self.key_of(j) != k@,
            decreases n - i,
        {
            if self.entries[i].0.same_key(k) {
                return Some(i);
            }
            i = i + 1;
        }
        None
    }

    pub fn contains_key(&self, k: &Key) -> (present: bool)
        requires
            self.wf(),
        ensures
            present == self.as_map().contains_key(k@),
    {
        match self.find(k) {
            Some(i) => {
                proof {
                    self.lemma_entry_in_map(i as int);
                }
                true
            },
            None => false,
        }
    }

    pub fn get(&self, k: &Key) -> (value: Option<&Val>)
        requires
            self.wf(),
        ensures
            match value {
                Some(v) => self.as_map().contains_key(k@) && v@ == self.as_map()[k@] && v.inv(),
                None => !self.as_map().contains_key(k@),
            },
    {
        match self.find(k) {
            Some(i) => {
                proof {
                    self.lemma_entry_in_map(i as int);
                }
                Some(&self.entries[i].1)
            },
            None => None,
        }
    }

    /// Maps `k` to `v`, replacing any earlier value.
    pub fn insert(&mut self, k: Key, v: Val)
        requires
            old(self).wf(),
            v.inv(),
        ensures
            final(self).wf(),
            final(self).as_map() == old(self).as_map().insert(k@, v@),
    {
        let ghost kv = k@;
        let ghost vv = v@;
        match self.find(&k) {
            Some(i) => {
                let ghost prev = *self;
                self.entries.set(i, (k, v));
                proof {
                    assert forall|a: int, b: int|
                        0 <= a < self.spec_len() && 0 <= b < self.spec_len() && a != b implies #[trigger] self.key_of(a)
                        != #[trigger] self.key_of(b) by {
                        assert(a != i ==> self.key_of(a) == prev.key_of(a));
                        assert(b != i ==> self.key_of(b) == prev.key_of(b));
                    }
                    assert forall|a: int| 0 <= a < self.spec_len() implies #[trigger] self.val_of(a).inv() by {
                        assert(a != i ==> self.val_of(a) == prev.val_of(a));
                    }
                    assert forall|x: Key::V| #[trigger] self.as_map().contains_key(x) <==> prev.as_map().insert(kv, vv).contains_key(x) by {
                        if self.has_key(x) {
                            let j = choose|j: int| 0 <= j < self.spec_len() && #[trigger] self.key_of(j) == x;
                            if j != i {
                                assert(prev.key_of(j) == x);
                            }
                        }
                        if prev.has_key(x) {
                            let j = choose|j: int| 0 <= j < prev.spec_len() && #[trigger] prev.key_of(j) == x;
                            if j != i {
                                assert(self.key_of(j) == x);
                            } else {
                                assert(self.key_of(i as int) == x);
                            }
                        }
                        if x == kv {
                            assert(self.key_of(i as int) == x);
                        }
                    }
                    assert forall|x: Key::V| #[trigger] self.as_map().contains_key(x) implies self.as_map()[x] == prev.as_map().insert(kv, vv)[x] by {
                        let j = self.lemma_map_key_has_entry(x);
                        if j != i {
                            assert(prev.key_of(j) == x);
                            prev.lemma_entry_in_map(j);
                        }
                    }
                    assert(self.as_map() =~= prev.as_map().insert(kv, vv));
                }
            },
            None => {
                let ghost prev = *self;
                self.entries.push((k, v));
                proof {
                    let n = prev.spec_len() as int;
                    assert forall|a: int| 0 <= a < n implies #[trigger] self.key_of(a) == prev.key_of(a) && self.val_of(a) == prev.val_of(a) by {}
                    assert(self.key_of(n) == kv);
                    assert forall|a: int| 0 <= a < n implies #[trigger] prev.key_of(a) != kv by {
                        prev.lemma_entry_in_map(a);
                    }
                    assert forall|a: int, b: int|
                        0 <= a < self.spec_len() && 0 <= b < self.spec_len() && a != b implies #[trigger] self.key_of(a)
                        != #[trigger] self.key_of(b) by {
                        if a < n {
                            assert(self.key_of(a) == prev.key_of(a));
                        }
                        if b < n {
                            assert(self.key_of(b) == prev.key_of(b));
                        }
                    }
                    assert forall|a: int| 0 <= a < self.spec_len() implies #[trigger] self.val_of(a).inv() by {
                        if a < n {
                            assert(self.val_of(a) == prev.val_of(a));
                        }
                    }
                    assert forall|x: Key::V| #[trigger] self.as_map().contains_key(x) <==> prev.as_map().insert(kv, vv).contains_key(x) by {
                        if self.has_key(x) {
                            let j = choose|j: int| 0 <= j < self.spec_len() && #[trigger] self.key_of(j) == x;
                            if j < n {
                                assert(prev.key_of(j) == x);
                            }
                        }
                        if prev.has_key(x) {
                            let j = choose|j: int| 0 <= j < prev.spec_len() && #[trigger] prev.key_of(j) == x;
                            assert(self.key_of(j) == x);
                        }
                    }
                    assert forall|x: Key::V| #[trigger] self.as_map().contains_key(x) implies self.as_map()[x] == prev.as_map().insert(kv, vv)[x] by {
                        let j = self.lemma_map_key_has_entry(x);
                        if j < n {
                            assert(prev.key_of(j) == x);
                            prev.lemma_entry_in_map(j);
                        }
                    }
                    assert(self.as_map() =~= prev.as_map().insert(kv, vv));
                }
            },
        }
    }

    /// Removes the entry with key `k`, handing back its value.
    pub fn remove(&mut self, k: &Key) -> (removed: Option<Val>)
        requires
            old(self).wf(),
        ensures
            final(self).wf(),
            final(self).as_map() == old(self).as_map().remove(k@),
            match removed {
                Some(v) => old(self).as_map().contains_key(k@) && v@ == old(self).as_map()[k@] && v.inv(),
                None => !old(self).as_map().contains_key(k@),
            },
    {
        match self.find(k) {
            Some(i) => {
                let ghost prev = *self;
                proof {
                    prev.lemma_entry_in_map(i as int);
                }
                let (_, v) = self.entries.remove(i);
                proof {
                    prev.entries@.remove_ensures(i as int);
                    let n = self.spec_len() as int;
                    assert forall|a: int| 0 <= a < n implies #[trigger] self.key_of(a) == prev.key_of(
                        if a < i { a } else { a + 1 },
                    ) && self.val_of(a) == prev.val_of(if a < i { a } else { a + 1 }) by {}
                    assert forall|a: int, b: int|
                        0 <= a < n && 0 <= b < n && a != b implies #[trigger] self.key_of(a)
                        != #[trigger] self.key_of(b) by {
                        let a2 = if a < i { a } else { a + 1 };
                        let b2 = if b < i { b } else { b + 1 };
                        assert(self.key_of(a) == prev.key_of(a2));
                        assert(self.key_of(b) == prev.key_of(b2));
                    }
                    assert forall|a: int| 0 <= a < n implies #[trigger] self.val_of(a).inv() by {
                        let a2 = if a < i { a } else { a + 1 };
                        assert(self.val_of(a) == prev.val_of(a2));
                    }
                    assert forall|x: Key::V| #[trigger] self.as_map().contains_key(x) <==> prev.as_map().remove(k@).contains_key(x) by {
                        if self.has_key(x) {
                            let j = choose|j: int| 0 <= j < n && #[trigger] self.key_of(j) == x;
                            let j2 = if j < i { j } else { j + 1 };
                            assert(prev.key_of(j2) == x);
                            assert(j2 != i);
                        }
                        if prev.has_key(x) && x != k@ {
                            let j = choose|j: int| 0 <= j < prev.spec_len() && #[trigger] prev.key_of(j) == x;
                            assert(j != i);
                            let j1 = if j < i { j } else { j - 1 };
                            assert(self.key_of(j1) == x);
                        }
                    }
                    assert forall|x: Key::V| #[trigger] self.as_map().contains_key(x) implies self.as_map()[x] == prev.as_map().remove(k@)[x] by {
                        let j = self.lemma_map_key_has_entry(x);
                        let j2 = if j < i { j } else { j + 1 };
                        assert(prev.key_of(j2) == x);
                        prev.lemma_entry_in_map(j2);
                    }
                    assert(self.as_map() =~= prev.as_map().remove(k@));
                }
                Some(v)
            },
            None => {
                proof {
                    assert(self.as_map() =~= self.as_map().remove(k@));
                }
                None
            },
        }
    }
}

} // verus!
