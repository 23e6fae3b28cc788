//! A keyed table kept sorted by key: the materialized indexes of the
//! site state. Iteration follows key order, as the ordered maps of the
//! site model promise.

use vstd::prelude::*;

use crate::text::{compare_text, lemma_text_lt_irreflexive, lemma_text_lt_transitive, text_lt, TextOrder};

verus! {

/// A value stored in a [`Table`] under a text key.
pub trait Keyed: View {
    /// The key the value is stored under.
    spec fn key_of(&self) -> Seq<char>;

    fn key(&self) -> (k: &str)
        ensures
            k@ == self.key_of(),
    ;
}

/// The entries are in strictly increasing key order.
pub open spec fn sorted_by_key<T: Keyed>(s: Seq<T>) -> bool {
    forall|i: int, j: int| 0 <= i < j < s.len() ==> text_lt(#[trigger] s[i].key_of(), #[trigger] s[j].key_of())
}

/// Some entry of `s` has key `k`.
pub open spec fn has_key<T: Keyed>(s: Seq<T>, k: Seq<char>) -> bool {
    exists|i: int| 0 <= i < s.len() && #[trigger] s[i].key_of() == k
}

/// The position of some entry of `s` with key `k` (meaningful when
/// there is one).
pub open spec fn key_index<T: Keyed>(s: Seq<T>, k: Seq<char>) -> int {
    choose|i: int| 0 <= i < s.len() && #[trigger] s[i].key_of() == k
}

/// The map from each key to the view of its entry.
pub open spec fn map_of<T: Keyed>(s: Seq<T>) -> Map<Seq<char>, T::V> {
    Map::new(|k: Seq<char>| has_key(s, k), |k: Seq<char>| s[key_index(s, k)]@)
}

/// In a sorted table an entry is the one its key maps to.
pub proof fn lemma_map_of_index<T: Keyed>(s: Seq<T>, i: int)
    requires
        sorted_by_key(s),
        0 <= i < s.len(),
    ensures
        map_of(s).contains_key(s[i].key_of()),
        map_of(s)[s[i].key_of()] == s[i]@,
{
    let k = s[i].key_of();
    assert(has_key(s, k));
    let j = key_index(s, k);
    assert(0 <= j < s.len() && s[j].key_of() == k);
    if j != i {
        lemma_text_lt_irreflexive(k);
        if j < i {
            assert(text_lt(s[j].key_of(), s[i].key_of()));
        } else {
            assert(text_lt(s[i].key_of(), s[j].key_of()));
        }
    }
}

/// Keys that sort before the first entry are absent.
proof fn lemma_sorted_unique<T: Keyed>(s: Seq<T>, i: int, j: int)
    requires
        sorted_by_key(s),
        0 <= i < s.len(),
        0 <= j < s.len(),
        s[i].key_of() == s[j].key_of(),
    ensures
        i == j,
{
    if i != j {
        lemma_text_lt_irreflexive(s[i].key_of());
        if i < j {
            assert(text_lt(s[i].key_of(), s[j].key_of()));
        } else {
            assert(text_lt(s[j].key_of(), s[i].key_of()));
        }
    }
}

/// Replacing the entry at `i` by one with the same key replaces its view
/// in the map.
proof fn lemma_map_of_update<T: Keyed>(s: Seq<T>, i: int, item: T)
    requires
        sorted_by_key(s),
        0 <= i < s.len(),
        item.key_of() == s[i].key_of(),
    ensures
        sorted_by_key(s.update(i, item)),
        map_of(s.update(i, item)) == map_of(s).insert(item.key_of(), item@),
{
    let t = s.update(i, item);
    assert(sorted_by_key(t)) by {
        assert forall|a: int, b: int| 0 <= a < b < t.len() implies text_lt(#[trigger] t[a].key_of(), #[trigger] t[b].key_of()) by {
            assert(text_lt(s[a].key_of(), s[b].key_of()));
        }
    }
    let m = map_of(s).insert(item.key_of(), item@);
    assert forall|k: Seq<char>| #[trigger] map_of(t).contains_key(k) <==> m.contains_key(k) by {
        if has_key(t, k) {
            let a = choose|a: int| 0 <= a < t.len() && #[trigger] t[a].key_of() == k;
            if a != i {
                assert(s[a].key_of() == k);
            }
        }
        if has_key(s, k) {
            let a = choose|a: int| 0 <= a < s.len() && #[trigger] s[a].key_of() == k;
            assert(t[a].key_of() == k);
        }
        if k == item.key_of() {
            assert(t[i].key_of() == k);
        }
    }
    assert forall|k: Seq<char>| #[trigger] map_of(t).contains_key(k) implies map_of(t)[k] == m[k] by {
        let a = choose|a: int| 0 <= a < t.len() && #[trigger] t[a].key_of() == k;
        lemma_map_of_index(t, a);
        if a != i {
            lemma_map_of_index(s, a);
            if k == item.key_of() {
                lemma_sorted_unique(t, a, i);
            }
        }
    }
    assert(map_of(t) =~= m);
}

/// Inserting an entry with a new key at its sorted position adds it to
/// the map.
proof fn lemma_map_of_insert<T: Keyed>(s: Seq<T>, p: int, item: T)
    requires
        sorted_by_key(s),
        0 <= p <= s.len(),
        forall|a: int| 0 <= a < p ==> text_lt(#[trigger] s[a].key_of(), item.key_of()),
        forall|a: int| p <= a < s.len() ==> text_lt(item.key_of(), #[trigger] s[a].key_of()),
    ensures
        sorted_by_key(s.insert(p, item)),
        !map_of(s).contains_key(item.key_of()),
        map_of(s.insert(p, item)) == map_of(s).insert(item.key_of(), item@),
{
    let t = s.insert(p, item);
    let k0 = item.key_of();
    assert(sorted_by_key(t)) by {
        assert forall|a: int, b: int| 0 <= a < b < t.len() implies text_lt(#[trigger] t[a].key_of(), #[trigger] t[b].key_of()) by {
            if b < p {
                assert(text_lt(s[a].key_of(), s[b].key_of()));
            } else if b == p {
                assert(text_lt(s[a].key_of(), k0));
            } else if a < p {
                assert(text_lt(s[a].key_of(), k0));
                assert(text_lt(k0, s[b - 1].key_of()));
                lemma_text_lt_transitive(s[a].key_of(), k0, s[b - 1].key_of());
            } else if a == p {
                assert(text_lt(k0, s[b - 1].key_of()));
            } else {
                assert(text_lt(s[a - 1].key_of(), s[b - 1].key_of()));
            }
        }
    }
    assert(!has_key(s, k0)) by {
        if has_key(s, k0) {
            let a = choose|a: int| 0 <= a < s.len() && #[trigger] s[a].key_of() == k0;
            lemma_text_lt_irreflexive(k0);
            if a < p {
                assert(text_lt(s[a].key_of(), k0));
            } else {
                assert(text_lt(k0, s[a].key_of()));
            }
        }
    }
    let m = map_of(s).insert(k0, item@);
    assert forall|k: Seq<char>| #[trigger] map_of(t).contains_key(k) <==> m.contains_key(k) by {
        if has_key(t, k) {
            let a = choose|a: int| 0 <= a < t.len() && #[trigger] t[a].key_of() == k;
            if a < p {
                assert(s[a].key_of() == k);
            } else if a > p {
                assert(s[a - 1].key_of() == k);
            }
        }
        if has_key(s, k) {
            let a = choose|a: int| 0 <= a < s.len() && #[trigger] s[a].key_of() == k;
            if a < p {
                assert(t[a].key_of() == k);
            } else {
                assert(t[a + 1].key_of() == k);
            }
        }
        if k == k0 {
            assert(t[p].key_of() == k);
        }
    }
    assert forall|k: Seq<char>| #[trigger] map_of(t).contains_key(k) implies map_of(t)[k] == m[k] by {
        let a = choose|a: int| 0 <= a < t.len() && #[trigger] t[a].key_of() == k;
        lemma_map_of_index(t, a);
        if a < p {
            lemma_map_of_index(s, a);
        } else if a > p {
            lemma_map_of_index(s, a - 1);
        }
    }
    assert(map_of(t) =~= m);
}

/// `s` lists, in key order, exactly the entries of `m` whose keys
/// satisfy `keep`.
pub open spec fn lists<T: Keyed>(s: Seq<T>, m: Map<Seq<char>, T::V>, keep: spec_fn(Seq<char>) -> bool) -> bool {
    &&& sorted_by_key(s)
    &&& forall|i: int|
        0 <= i < s.len() ==> m.contains_key(#[trigger] s[i].key_of()) && m[s[i].key_of()] == s[i]@
            && keep(s[i].key_of())
    &&& forall|k: Seq<char>| m.contains_key(k) && keep(k) ==> has_key(s, k)
}

/// The values behind a sequence of references.
pub open spec fn derefs<T>(s: Seq<&T>) -> Seq<T> {
    s.map_values(|x: &T| *x)
}

/// `r` holds, in order, the entries among the first `i` of `s` whose
/// keys satisfy `keep`.
pub open spec fn picked<T: Keyed>(s: Seq<T>, r: Seq<T>, i: int, keep: spec_fn(Seq<char>) -> bool) -> bool {
    &&& 0 <= i <= s.len()
    &&& sorted_by_key(r)
    &&& forall|a: int| 0 <= a < r.len() ==> keep(#[trigger] r[a].key_of())
    &&& forall|a: int| #![trigger r[a]] 0 <= a < r.len() ==> exists|j: int| 0 <= j < i && #[trigger] s[j] == r[a]
    &&& forall|j: int| 0 <= j < i && keep(#[trigger] s[j].key_of()) ==> r.contains(s[j])
}

pub proof fn lemma_picked_start<T: Keyed>(s: Seq<T>, keep: spec_fn(Seq<char>) -> bool)
    ensures
        picked(s, Seq::empty(), 0, keep),
{
}

/// Extending the scan by entry `i`, taking it when `take` holds.
pub proof fn lemma_picked_step<T: Keyed>(
    s: Seq<T>,
    r: Seq<T>,
    i: int,
    keep: spec_fn(Seq<char>) -> bool,
    take: bool,
)
    requires
        sorted_by_key(s),
        picked(s, r, i, keep),
        i < s.len(),
        take == keep(s[i].key_of()),
    ensures
        picked(s, if take { r.push(s[i]) } else { r }, i + 1, keep),
{
    if take {
        let r2 = r.push(s[i]);
        assert forall|a: int, b: int| 0 <= a < b < r2.len() implies text_lt(#[trigger] r2[a].key_of(), #[trigger] r2[b].key_of()) by {
            if b < r.len() {
                assert(text_lt(r[a].key_of(), r[b].key_of()));
            } else {
                let j = choose|j: int| 0 <= j < i && #[trigger] s[j] == r[a];
                assert(text_lt(s[j].key_of(), s[i].key_of()));
            }
        }
        assert forall|a: int| #![trigger r2[a]] 0 <= a < r2.len() implies exists|j: int| 0 <= j < i + 1 && #[trigger] s[j] == r2[a] by {
            if a < r.len() {
                let j = choose|j: int| 0 <= j < i && #[trigger] s[j] == r[a];
                assert(s[j] == r2[a]);
            } else {
                assert(s[i] == r2[a]);
            }
        }
        assert forall|j: int| 0 <= j < i + 1 && keep(#[trigger] s[j].key_of()) implies r2.contains(s[j]) by {
            if j < i {
                let a = choose|a: int| 0 <= a < r.len() && r[a] == s[j];
                assert(r2[a] == s[j]);
            } else {
                assert(r2[r.len() as int] == s[j]);
            }
        }
    } else {
        assert forall|a: int| #![trigger r[a]] 0 <= a < r.len() implies exists|j: int| 0 <= j < i + 1 && #[trigger] s[j] == r[a] by {
            let j = choose|j: int| 0 <= j < i && #[trigger] s[j] == r[a];
        }
    }
}

/// A completed scan lists the map's entries that `keep` selects.
pub proof fn lemma_picked_done<T: Keyed>(s: Seq<T>, r: Seq<T>, keep: spec_fn(Seq<char>) -> bool)
    requires
        sorted_by_key(s),
        picked(s, r, s.len() as int, keep),
    ensures
        lists(r, map_of(s), keep),
{
    assert forall|a: int| 0 <= a < r.len() implies map_of(s).contains_key(#[trigger] r[a].key_of())
        && map_of(s)[r[a].key_of()] == r[a]@ && keep(r[a].key_of()) by {
        let j = choose|j: int| 0 <= j < s.len() && #[trigger] s[j] == r[a];
        lemma_map_of_index(s, j);
    }
    assert forall|k: Seq<char>| map_of(s).contains_key(k) && keep(k) implies has_key(r, k) by {
        let j = choose|j: int| 0 <= j < s.len() && #[trigger] s[j].key_of() == k;
        let a = choose|a: int| 0 <= a < r.len() && r[a] == s[j];
        assert(r[a].key_of() == k);
    }
}

/// How many entries of `s` have a key satisfying `p`.
pub open spec fn count_keys<T: Keyed>(s: Seq<T>, p: spec_fn(Seq<char>) -> bool) -> nat
    decreases s.len(),
{
    if s.len() == 0 {
        0
    } else {
        count_keys(s.drop_last(), p) + if p(s.last().key_of()) {
            1nat
        } else {
            0nat
        }
    }
}

/// A sorted table's keys form a finite set, and counting the keys that
/// satisfy `p` counts entries.
pub proof fn lemma_map_of_count<T: Keyed>(s: Seq<T>, p: spec_fn(Seq<char>) -> bool)
    requires
        sorted_by_key(s),
    ensures
        map_of(s).dom().finite(),
        map_of(s).dom().filter(p).len() == count_keys(s, p),
    decreases s.len(),
{
    if s.len() == 0 {
        assert(map_of(s).dom() =~= Set::<Seq<char>>::empty());
        assert(map_of(s).dom().filter(p) =~= Set::<Seq<char>>::empty());
    } else {
        let d = s.drop_last();
        let last = s.last();
        let n = s.len() - 1;
        assert(sorted_by_key(d));
        assert forall|a: int| 0 <= a < n implies text_lt(#[trigger] d[a].key_of(), last.key_of()) by {
            assert(text_lt(s[a].key_of(), s[n].key_of()));
        }
        lemma_map_of_insert(d, n, last);
        assert(d.insert(n, last) =~= s);
        lemma_map_of_count(d, p);
        let k = last.key_of();
        assert(map_of(s).dom() =~= map_of(d).dom().insert(k));
        if p(k) {
            assert(map_of(s).dom().filter(p) =~= map_of(d).dom().filter(p).insert(k));
        } else {
            assert(map_of(s).dom().filter(p) =~= map_of(d).dom().filter(p));
        }
    }
}

/// A sorted table has as many keys as entries.
pub proof fn lemma_map_of_len<T: Keyed>(s: Seq<T>)
    requires
        sorted_by_key(s),
    ensures
        map_of(s).dom().finite(),
        map_of(s).dom().len() == s.len(),
{
    let all = |k: Seq<char>| true;
    lemma_map_of_count(s, all);
    lemma_count_all(s, all);
    assert(map_of(s).dom().filter(all) =~= map_of(s).dom());
}

proof fn lemma_count_all<T: Keyed>(s: Seq<T>, all: spec_fn(Seq<char>) -> bool)
    requires
        forall|k: Seq<char>| #[trigger] all(k),
    ensures
        count_keys(s, all) == s.len(),
    decreases s.len(),
{
    if s.len() > 0 {
        lemma_count_all(s.drop_last(), all);
    }
}

/// Values kept in increasing key order, at most one per key.
#[derive(Debug)]
pub struct Table<T> {
    items: Vec<T>,
}

impl<T: Keyed> Table<T> {
    /// The entries, in key order.
    pub closed spec fn entries(&self) -> Seq<T> {
        self.items@
    }

    /// The table's invariant: keys strictly increase.
    pub open spec fn wf(&self) -> bool {
        sorted_by_key(self.entries())
    }

    /// The table as a map from key to the view of its entry.
    pub open spec fn as_map(&self) -> Map<Seq<char>, T::V> {
        map_of(self.entries())
    }

    pub fn new() -> (t: Self)
        ensures
            t.entries() == Seq::<T>::empty(),
            t.wf(),
            t.as_map() == Map::<Seq<char>, T::V>::empty(),
    {
        let t = Table { items: Vec::new() };
        assert(map_of(t.entries()) =~= Map::<Seq<char>, T::V>::empty());
        t
    }

    pub fn len(&self) -> (n: usize)
        ensures
            n == self.entries().len(),
    {
        self.items.len()
    }

    /// The entries in key order.
    pub fn as_slice(&self) -> (s: &[T])
        ensures
            s@ == self.entries(),
    {
        self.items.as_slice()
    }

    /// The position of the entry with key `key`, if any.
    pub fn find(&self, key: &str) -> (r: Option<usize>)
        requires
            self.wf(),
        ensures
            r matches Some(i) ==> i < self.entries().len() && self.entries()[i as int].key_of() == key@,
            r is None <==> !self.as_map().contains_key(key@),
            r is None <==> !has_key(self.entries(), key@),
    {
        let mut lo: usize = 0;
        let mut hi: usize = self.items.len();
        while lo < hi
            invariant
                self.wf(),
                lo <= hi <= self.items@.len(),
                forall|a: int| 0 <= a < lo ==> text_lt(#[trigger] self.items@[a].key_of(), key@),
                forall|a: int| hi <= a < self.items@.len() ==> text_lt(key@, #[trigger] self.items@[a].key_of()),
            decreases hi - lo,
        {
            let mid = lo + (hi - lo) / 2;
            match compare_text(self.items[mid].key(), key) {
                TextOrder::Equal => {
                    return Some(mid);
                },
                TextOrder::Less => {
                    proof {
                        assert forall|a: int| 0 <= a < mid + 1 implies text_lt(#[trigger] self.items@[a].key_of(), key@) by {
                            if a < mid {
                                assert(text_lt(self.items@[a].key_of(), self.items@[mid as int].key_of()));
                                lemma_text_lt_transitive(self.items@[a].key_of(), self.items@[mid as int].key_of(), key@);
                            }
                        }
                    }
                    lo = mid + 1;
                },
                TextOrder::Greater => {
                    proof {
                        assert forall|a: int| mid <= a < self.items@.len() implies text_lt(key@, #[trigger] self.items@[a].key_of()) by {
                            if a > mid {
                                assert(text_lt(self.items@[mid as int].key_of(), self.items@[a].key_of()));
                                lemma_text_lt_transitive(key@, self.items@[mid as int].key_of(), self.items@[a].key_of());
                            }
                        }
                    }
                    hi = mid;
                },
            }
        }
        proof {
            if has_key(self.items@, key@) {
                let a = choose|a: int| 0 <= a < self.items@.len() && #[trigger] self.items@[a].key_of() == key@;
                lemma_text_lt_irreflexive(key@);
                if a < lo {
                    assert(text_lt(self.items@[a].key_of(), key@));
                } else {
                    assert(text_lt(key@, self.items@[a].key_of()));
                }
            }
        }
        None
    }

    /// The entry with key `key`, if any.
    pub fn get(&self, key: &str) -> (r: Option<&T>)
        requires
            self.wf(),
        ensures
            r is None <==> !self.as_map().contains_key(key@),
            r matches Some(v) ==> v@ == self.as_map()[key@] && v.key_of() == key@,
    {
        match self.find(key) {
            Some(i) => {
                proof {
                    lemma_map_of_index(self.items@, i as int);
                }
                Some(&self.items[i])
            },
            None => None,
        }
    }

    /// Replace the entry at `i` by one with the same key; returns the
    /// entry that was there.
    pub fn replace_at(&mut self, i: usize, item: T) -> (prev: T)
        requires
            old(self).wf(),
            i < old(self).entries().len(),
            item.key_of() == old(self).entries()[i as int].key_of(),
        ensures
            final(self).wf(),
            final(self).entries() == old(self).entries().update(i as int, item),
            final(self).as_map() == old(self).as_map().insert(item.key_of(), item@),
            prev == old(self).entries()[i as int],
    {
        proof {
            lemma_map_of_update(self.items@, i as int, item);
        }
        let mut prev = item;
        std::mem::swap(&mut self.items[i], &mut prev);
        prev
    }

    /// Insert `item`, replacing the entry with the same key if there is
    /// one.
    pub fn upsert(&mut self, item: T)
        requires
            old(self).wf(),
        ensures
            final(self).wf(),
            final(self).as_map() == old(self).as_map().insert(item.key_of(), item@),
            forall|j: int|
                0 <= j < final(self).entries().len() ==> #[trigger] final(self).entries()[j] == item
                    || old(self).entries().contains(final(self).entries()[j]),
    {
        let mut lo: usize = 0;
        let mut hi: usize = self.items.len();
        let ghost k0 = item.key_of();
        while lo < hi
            invariant
                self.wf(),
                self.entries() == old(self).entries(),
                k0 == item.key_of(),
                lo <= hi <= self.items@.len(),
                forall|a: int| 0 <= a < lo ==> text_lt(#[trigger] self.items@[a].key_of(), k0),
                forall|a: int| hi <= a < self.items@.len() ==> text_lt(k0, #[trigger] self.items@[a].key_of()),
            decreases hi - lo,
        {
            let mid = lo + (hi - lo) / 2;
            match compare_text(self.items[mid].key(), item.key()) {
                TextOrder::Equal => {
                    let ghost before = self.items@;
                    self.replace_at(mid, item);
                    proof {
                        assert forall|j: int| 0 <= j < self.items@.len() implies #[trigger] self.items@[j] == item
                            || before.contains(self.items@[j]) by {
                            if j != mid {
                                assert(self.items@[j] == before[j]);
                            }
                        }
                    }
                    return;
                },
                TextOrder::Less => {
                    proof {
                        assert forall|a: int| 0 <= a < mid + 1 implies text_lt(#[trigger] self.items@[a].key_of(), k0) by {
                            if a < mid {
                                assert(text_lt(self.items@[a].key_of(), self.items@[mid as int].key_of()));
                                lemma_text_lt_transitive(self.items@[a].key_of(), self.items@[mid as int].key_of(), k0);
                            }
                        }
                    }
                    lo = mid + 1;
                },
                TextOrder::Greater => {
                    proof {
                        assert forall|a: int| mid <= a < self.items@.len() implies text_lt(k0, #[trigger] self.items@[a].key_of()) by {
                            if a > mid {
                                assert(text_lt(self.items@[mid as int].key_of(), self.items@[a].key_of()));
                                lemma_text_lt_transitive(k0, self.items@[mid as int].key_of(), self.items@[a].key_of());
                            }
                        }
                    }
                    hi = mid;
                },
            }
        }
        proof {
            lemma_map_of_insert(self.items@, lo as int, item);
        }
        let ghost before = self.items@;
        self.items.insert(lo, item);
        proof {
            assert forall|j: int| 0 <= j < self.items@.len() implies #[trigger] self.items@[j] == item
                || before.contains(self.items@[j]) by {
                if j < lo {
                    assert(self.items@[j] == before[j]);
                } else if j > lo {
                    assert(self.items@[j] == before[j - 1]);
                }
            }
        }
    }
}

} // verus!
