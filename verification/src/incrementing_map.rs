//! A pool whose keys only grow.

use itertools::Itertools;
use vstd::prelude::*;
use vstd::relations::sorted_by;

verus! {

/// Whether the keys of `s` grow strictly from one entry to the next.
pub open spec fn ascending<T>(s: Seq<(u64, T)>) -> bool {
    forall|i: int, j: int| 0 <= i < j < s.len() ==> (#[trigger] s[i]).0 < (#[trigger] s[j]).0
}

/// Whether some entry of `s` has the key `k`.
pub open spec fn has_key<T>(s: Seq<(u64, T)>, k: u64) -> bool {
    exists|i: int| 0 <= i < s.len() && (#[trigger] s[i]).0 == k
}

/// The place of the key `k` in `s`.
pub open spec fn slot<T>(s: Seq<(u64, T)>, k: u64) -> int {
    choose|i: int| 0 <= i < s.len() && (#[trigger] s[i]).0 == k
}

/// The keys of `s`, in its order.
pub open spec fn keys_of<T>(s: Seq<(u64, T)>) -> Seq<u64> {
    Seq::new(s.len(), |i: int| s[i].0)
}

/// `s` without the entry under `k`, if there is one.
pub open spec fn without<T>(s: Seq<(u64, T)>, k: u64) -> Seq<(u64, T)> {
    if has_key(s, k) {
        s.remove(slot(s, k))
    } else {
        s
    }
}

/// In an ascending sequence a key stands at one place only.
pub proof fn lemma_slot_unique<T>(s: Seq<(u64, T)>, i: int)
    requires
        ascending(s),
        0 <= i < s.len(),
    ensures
        has_key(s, s[i].0),
        slot(s, s[i].0) == i,
{
    let k = s[i].0;
    let j = slot(s, k);
    assert(0 <= j < s.len() && s[j].0 == k);
    if j < i {
        assert(s[j].0 < s[i].0);
    } else if i < j {
        assert(s[i].0 < s[j].0);
    }
}

/// Whether two sequences hold the same keys, each with the same item.
pub open spec fn same_content<T>(s: Seq<(u64, T)>, t: Seq<(u64, T)>) -> bool {
    forall|k: u64|
        #![trigger has_key(s, k)]
        #![trigger has_key(t, k)]
        has_key(s, k) == has_key(t, k) && (has_key(t, k) ==> s[slot(s, k)].1 == t[slot(t, k)].1)
}

/// Whether `items` can be the entries of a pool that has given out keys up to `highest`:
/// no two have one key, and every key is above zero and not above `highest`.
pub open spec fn restorable<T>(items: Seq<(u64, T)>, highest: u64) -> bool {
    &&& keys_of(items).no_duplicates()
    &&& forall|i: int| 0 <= i < items.len() ==> 1 <= (#[trigger] items[i]).0 <= highest
}

/// Calls `itertools::Itertools::sorted` on the ids. Trusted: the result holds the same
/// ids, each as often as before, in ascending order.
#[verifier::external_body]
fn sorted_ids(ids: Vec<u64>) -> (r: Vec<u64>)
    ensures
        r@.to_multiset() == ids@.to_multiset(),
        sorted_by(r@, |a: u64, b: u64| a <= b),
{
    ids.into_iter().sorted().collect()
}

/// Sorted keys are the keys, as many of them, and are without duplicates if the keys are.
proof fn lemma_same_keys(keys: Seq<u64>, sorted: Seq<u64>)
    requires
        sorted.to_multiset() == keys.to_multiset(),
    ensures
        sorted.len() == keys.len(),
        forall|k: u64| sorted.contains(k) <==> keys.contains(k),
        keys.no_duplicates() <==> sorted.no_duplicates(),
{
    broadcast use vstd::seq_lib::group_to_multiset_ensures;

    sorted.to_multiset_ensures();
    keys.to_multiset_ensures();
    assert forall|k: u64| sorted.contains(k) <==> keys.contains(k) by {
        assert(sorted.contains(k) <==> sorted.to_multiset().count(k) > 0);
        assert(keys.contains(k) <==> keys.to_multiset().count(k) > 0);
    }
    if keys.no_duplicates() {
        keys.lemma_multiset_has_no_duplicates();
        sorted.lemma_multiset_has_no_duplicates_conv();
    }
    if sorted.no_duplicates() {
        sorted.lemma_multiset_has_no_duplicates();
        keys.lemma_multiset_has_no_duplicates_conv();
    }
}

/// Entries taken from `items` under its sorted keys hold what `items` holds.
proof fn lemma_restored<T>(items: Seq<(u64, T)>, out: Seq<(u64, T)>, sorted: Seq<u64>, highest: u64)
    requires
        out.len() == sorted.len(),
        sorted.len() == items.len(),
        forall|k: u64| sorted.contains(k) <==> has_key(items, k),
        keys_of(items).no_duplicates() <==> sorted.no_duplicates(),
        forall|m: int| 0 <= m < out.len() ==> (#[trigger] out[m]).0 == sorted[m],
        forall|m: int| 0 <= m < out.len() ==> 1 <= (#[trigger] sorted[m]) <= highest,
        forall|m: int, n: int| 0 <= m < n < out.len() ==> sorted[m] < sorted[n],
        forall|m: int| 0 <= m < out.len() ==> items.contains(#[trigger] out[m]),
    ensures
        ascending(out),
        forall|i: int| 0 <= i < out.len() ==> 1 <= (#[trigger] out[i]).0 <= highest,
        restorable(items, highest),
        same_content(out, items),
{
    assert forall|i: int, j: int| 0 <= i < j < out.len() implies (#[trigger] out[i]).0 < (
    #[trigger] out[j]).0 by {
        assert(sorted[i] < sorted[j]);
    }
    assert(sorted.no_duplicates());
    let keys = keys_of(items);
    assert forall|i: int| 0 <= i < items.len() implies 1 <= (#[trigger] items[i]).0
        <= highest by {
        let k = items[i].0;
        assert(has_key(items, k));
        assert(sorted.contains(k));
        let m = choose|m: int| 0 <= m < sorted.len() && sorted[m] == k;
        assert(1 <= sorted[m] <= highest);
    }
    assert forall|k: u64|
        #![trigger has_key(out, k)]
        #![trigger has_key(items, k)]
        has_key(out, k) == has_key(items, k) && (has_key(items, k) ==> out[slot(out, k)].1
            == items[slot(items, k)].1) by {
        if has_key(out, k) {
            let m = slot(out, k);
            assert(out[m].0 == k);
            assert(sorted[m] == k);
            assert(sorted.contains(k));
        }
        if has_key(items, k) {
            assert(sorted.contains(k));
            let m = choose|m: int| 0 <= m < sorted.len() && sorted[m] == k;
            assert(out[m].0 == k);
            lemma_slot_unique(out, m);
            assert(items.contains(out[m]));
            let j = choose|j: int| 0 <= j < items.len() && items[j] == out[m];
            let at = slot(items, k);
            assert(items[at].0 == k);
            assert(keys[j] == k && keys[at] == k);
            assert(j == at);
        }
    }
}

/// A mapping from keys to items in which every new item gets a key one above the
/// highest key ever given out. A key that has left is never given out again, and the
/// entries stand in the order of their keys.
#[derive(Debug)]
pub struct IncrementingMap<T> {
    items: Vec<(u64, T)>,
    highest: u64,
}

impl<T> IncrementingMap<T> {
    /// The entries, by ascending key.
    pub closed spec fn entries(&self) -> Seq<(u64, T)> {
        self.items@
    }

    /// The highest key ever given out; zero before the first.
    pub closed spec fn highest(&self) -> u64 {
        self.highest
    }

    /// The keys grow strictly along the entries and none is above the highest ever given.
    pub open spec fn wf(&self) -> bool {
        &&& ascending(self.entries())
        &&& forall|i: int|
            0 <= i < self.entries().len() ==> 1 <= (#[trigger] self.entries()[i]).0
                <= self.highest()
    }

    /// Whether the pool holds an item under `k`.
    pub open spec fn contains(&self, k: u64) -> bool {
        has_key(self.entries(), k)
    }

    /// The item under `k`.
    pub open spec fn item(&self, k: u64) -> T {
        self.entries()[slot(self.entries(), k)].1
    }

    /// Whether this pool holds under every key but `key` what `before` holds under it.
    pub open spec fn same_but(&self, before: &Self, key: u64) -> bool {
        forall|j: u64|
            j != key ==> self.contains(j) == before.contains(j) && (before.contains(j)
                ==> self.item(j) == before.item(j))
    }

    /// An empty pool that has given out no key.
    pub fn new() -> (r: Self)
        ensures
            r.wf(),
            r.entries() == Seq::<(u64, T)>::empty(),
            r.highest() == 0,
    {
        IncrementingMap { items: Vec::new(), highest: 0 }
    }

    /// The number of items.
    pub fn len(&self) -> (r: usize)
        ensures
            r == self.entries().len(),
    {
        self.items.len()
    }

    /// The highest key ever given out; zero before the first.
    pub fn highest_id(&self) -> (r: u64)
        ensures
            r == self.highest(),
    {
        self.highest
    }

    /// Adds `item` under a fresh key, one above the highest ever given out, and returns
    /// that key.
    pub fn add_item(&mut self, item: T) -> (key: u64)
        requires
            old(self).wf(),
            old(self).highest() < u64::MAX,
        ensures
            final(self).wf(),
            key == old(self).highest() + 1,
            final(self).highest() == key,
            final(self).entries() == old(self).entries().push((key, item)),
            !old(self).contains(key),
            final(self).contains(key),
            final(self).item(key) == item,
            final(self).same_but(old(self), key),
    {
        let key: u64 = self.highest + 1;
        proof {
            lemma_push(self.entries(), key, item);
        }
        proof {
            if has_key(self.entries(), key) {
                let i = slot(self.entries(), key);
                assert(self.entries()[i].0 <= self.highest());
            }
        }
        self.items.push((key, item));
        self.highest = key;
        proof {
            let s = self.entries();
            assert forall|i: int, j: int| 0 <= i < j < s.len() implies (#[trigger] s[i]).0 < (
            #[trigger] s[j]).0 by {
                if j < s.len() - 1 {
                    assert(s[i] == old(self).entries()[i]);
                    assert(s[j] == old(self).entries()[j]);
                } else {
                    assert(s[i] == old(self).entries()[i]);
                }
            }
            assert forall|i: int| 0 <= i < s.len() implies 1 <= (#[trigger] s[i]).0
                <= self.highest() by {
                if i < s.len() - 1 {
                    assert(s[i] == old(self).entries()[i]);
                }
            }
        }
        key
    }

    /// The place of `k` among the entries, if the pool holds it.
    fn find(&self, k: u64) -> (r: Option<usize>)
        requires
            self.wf(),
        ensures
            match r {
                Some(i) => self.contains(k) && i == slot(self.entries(), k),
                None => !self.contains(k),
            },
    {
        let mut i: usize = 0;
        while i < self.items.len()
            invariant
                i <= self.items.len(),
                self.wf(),
                forall|j: int| 0 <= j < i ==> (#[trigger] self.entries()[j]).0 != k,
            decreases self.items.len() - i,
        {
            if self.items[i].0 == k {
                proof {
                    lemma_slot_unique(self.entries(), i as int);
                }
                return Some(i);
            }
            i = i + 1;
        }
        None
    }

    /// Whether the pool holds an item under `k`.
    pub fn contains_key(&self, k: u64) -> (r: bool)
        requires
            self.wf(),
        ensures
            r == self.contains(k),
    {
        self.find(k).is_some()
    }

    /// The item under `k`, if the pool holds one.
    pub fn get_item(&self, k: u64) -> (r: Option<&T>)
        requires
            self.wf(),
        ensures
            match r {
                Some(v) => self.contains(k) && *v == self.item(k),
                None => !self.contains(k),
            },
    {
        match self.find(k) {
            Some(i) => Some(&self.items[i].1),
            None => None,
        }
    }

    /// Takes the item under `k` out, if there is one, and returns `k`. The key is spent:
    /// no later item gets it.
    pub fn remove_item(&mut self, k: u64) -> (r: u64)
        requires
            old(self).wf(),
        ensures
            final(self).wf(),
            r == k,
            final(self).highest() == old(self).highest(),
            final(self).entries() == without(old(self).entries(), k),
            !final(self).contains(k),
            final(self).same_but(old(self), k),
    {
        match self.find(k) {
            Some(i) => {
                self.items.remove(i);
                proof {
                    lemma_remove(old(self).entries(), i as int);
                }
            },
            None => {
                proof {
                    lemma_absent(old(self).entries(), k);
                }
            },
        }
        k
    }

    /// Puts `item` in the place of the item under `k`, which keeps its key.
    pub fn replace_item(&mut self, k: u64, item: T)
        requires
            old(self).wf(),
            old(self).contains(k),
        ensures
            final(self).wf(),
            final(self).highest() == old(self).highest(),
            final(self).entries() == old(self).entries().update(
                slot(old(self).entries(), k),
                (k, item),
            ),
            final(self).contains(k),
            final(self).item(k) == item,
            final(self).same_but(old(self), k),
    {
        let found = self.find(k);
        let i = found.unwrap();
        self.items.set(i, (k, item));
        proof {
            lemma_update(old(self).entries(), i as int, item);
        }
    }

    /// The key of the entry at place `i`.
    pub fn key_at(&self, i: usize) -> (r: u64)
        requires
            i < self.entries().len(),
        ensures
            r == self.entries()[i as int].0,
    {
        self.items[i].0
    }

    /// The item of the entry at place `i`.
    pub fn item_at(&self, i: usize) -> (r: &T)
        requires
            i < self.entries().len(),
        ensures
            *r == self.entries()[i as int].1,
    {
        &self.items[i].1
    }

    /// Whether the keys grow strictly along the entries and none is above the highest
    /// ever given.
    pub fn is_wf(&self) -> (r: bool)
        ensures
            r == self.wf(),
    {
        let mut i: usize = 0;
        while i < self.items.len()
            invariant
                i <= self.items.len(),
                forall|a: int, b: int|
                    0 <= a < b < i ==> (#[trigger] self.entries()[a]).0 < (
                    #[trigger] self.entries()[b]).0,
                forall|a: int|
                    0 <= a < i ==> 1 <= (#[trigger] self.entries()[a]).0 <= self.highest(),
            decreases self.items.len() - i,
        {
            let key = self.items[i].0;
            if key < 1 || key > self.highest {
                return false;
            }
            if i > 0 && self.items[i - 1].0 >= key {
                proof {
                    assert(!(self.entries()[i - 1].0 < self.entries()[i as int].0));
                }
                return false;
            }
            proof {
                assert forall|a: int, b: int| 0 <= a < b < i + 1 implies (
                #[trigger] self.entries()[a]).0 < (#[trigger] self.entries()[b]).0 by {
                    if b == i && a < i - 1 {
                        assert(self.entries()[a].0 < self.entries()[i - 1].0);
                    }
                }
            }
            i = i + 1;
        }
        true
    }

    /// The pool that holds the entries `items`, which may come in any order, and has given
    /// out keys up to `highest`; none if two entries have one key, or a key is zero or
    /// above `highest`. The entries are put in the order of their keys.
    pub fn from_entries(items: Vec<(u64, T)>, highest: u64) -> (r: Option<Self>) where T: Copy
        ensures
            match r {
                Some(pool) => {
                    &&& pool.wf()
                    &&& pool.highest() == highest
                    &&& restorable(items@, highest)
                    &&& pool.entries().len() == items@.len()
                    &&& same_content(pool.entries(), items@)
                },
                None => !restorable(items@, highest),
            },
    {
        let mut keys: Vec<u64> = Vec::new();
        let mut n: usize = 0;
        while n < items.len()
            invariant
                n <= items@.len(),
                keys@ == keys_of(items@).subrange(0, n as int),
            decreases items@.len() - n,
        {
            keys.push(items[n].0);
            proof {
                assert(keys@ =~= keys_of(items@).subrange(0, n + 1));
            }
            n = n + 1;
        }
        proof {
            assert(keys@ =~= keys_of(items@));
        }
        let sorted = sorted_ids(keys);
        proof {
            lemma_same_keys(keys_of(items@), sorted@);
            assert forall|k: u64| keys_of(items@).contains(k) <==> has_key(items@, k) by {
                if keys_of(items@).contains(k) {
                    let m = choose|m: int|
                        0 <= m < keys_of(items@).len() && keys_of(items@)[m] == k;
                    assert(items@[m].0 == k);
                }
                if has_key(items@, k) {
                    let m = slot(items@, k);
                    assert(keys_of(items@)[m] == k);
                }
            }
        }
        let mut out: Vec<(u64, T)> = Vec::new();
        let mut i: usize = 0;
        while i < sorted.len()
            invariant
                i <= sorted@.len(),
                sorted@.len() == items@.len(),
                sorted_by(sorted@, |a: u64, b: u64| a <= b),
                forall|k: u64| sorted@.contains(k) <==> has_key(items@, k),
                keys_of(items@).no_duplicates() <==> sorted@.no_duplicates(),
                out@.len() == i,
                forall|m: int| 0 <= m < i ==> (#[trigger] out@[m]).0 == sorted@[m],
                forall|m: int| 0 <= m < i ==> 1 <= (#[trigger] sorted@[m]) <= highest,
                forall|m: int, n: int| 0 <= m < n < i ==> sorted@[m] < sorted@[n],
                forall|m: int|
                    0 <= m < i ==> has_key(items@, (#[trigger] out@[m]).0) && items@.contains(
                        out@[m],
                    ),
            decreases sorted@.len() - i,
        {
            let key = sorted[i];
            proof {
                assert(sorted@.contains(key));
            }
            if key < 1 || key > highest {
                proof {
                    let j = slot(items@, key);
                    assert(items@[j].0 == key);
                }
                return None;
            }
            if i > 0 && sorted[i - 1] >= key {
                proof {
                    let leq = |a: u64, b: u64| a <= b;
                    assert(leq(sorted@[i - 1], sorted@[i as int]));
                    assert(sorted@[i - 1] == sorted@[i as int]);
                    assert(!sorted@.no_duplicates());
                }
                return None;
            }
            let mut j: usize = 0;
            while j < items.len() && items[j].0 != key
                invariant
                    j <= items@.len(),
                    forall|m: int| 0 <= m < j ==> (#[trigger] items@[m]).0 != key,
                decreases items@.len() - j,
            {
                j = j + 1;
            }
            proof {
                let at = slot(items@, key);
                assert(items@[at].0 == key);
            }
            out.push((key, items[j].1));
            proof {
                assert(items@[j as int] == (key, items@[j as int].1));
                assert forall|m: int, n: int| 0 <= m < n < i + 1 implies sorted@[m]
                    < sorted@[n] by {
                    if n == i && m < i - 1 {
                        assert(sorted@[m] < sorted@[i - 1]);
                    }
                }
            }
            i = i + 1;
        }
        let pool = IncrementingMap { items: out, highest };
        proof {
            lemma_restored(items@, pool.entries(), sorted@, highest);
        }
        Some(pool)
    }

    /// A second pool with the same entries and the same highest key.
    pub fn duplicate(&self) -> (r: Self) where T: Copy
        ensures
            r.entries() == self.entries(),
            r.highest() == self.highest(),
    {
        let mut items: Vec<(u64, T)> = Vec::new();
        let mut i: usize = 0;
        while i < self.items.len()
            invariant
                i <= self.items.len(),
                items@ == self.items@.subrange(0, i as int),
            decreases self.items.len() - i,
        {
            let entry: (u64, T) = self.items[i];
            items.push(entry);
            proof {
                assert(items@ =~= self.items@.subrange(0, i + 1));
            }
            i = i + 1;
        }
        proof {
            assert(self.items@.subrange(0, i as int) =~= self.items@);
        }
        IncrementingMap { items, highest: self.highest }
    }

    /// The keys in ascending order.
    pub fn keys(&self) -> (r: Vec<u64>)
        ensures
            r@ == keys_of(self.entries()),
    {
        let mut out: Vec<u64> = Vec::new();
        let mut i: usize = 0;
        while i < self.items.len()
            invariant
                i <= self.items.len(),
                out@ == keys_of(self.entries().subrange(0, i as int)),
            decreases self.items.len() - i,
        {
            out.push(self.items[i].0);
            proof {
                assert(out@ =~= keys_of(self.entries().subrange(0, i + 1)));
            }
            i = i + 1;
        }
        proof {
            assert(self.entries().subrange(0, i as int) =~= self.entries());
        }
        out
    }
}

/// What taking the entry at place `i` out of an ascending sequence leaves.
pub proof fn lemma_remove<T>(s: Seq<(u64, T)>, i: int)
    requires
        ascending(s),
        0 <= i < s.len(),
    ensures
        ascending(s.remove(i)),
        without(s, s[i].0) == s.remove(i),
        !has_key(s.remove(i), s[i].0),
        forall|j: u64|
            j != s[i].0 ==> has_key(s.remove(i), j) == has_key(s, j) && (has_key(s, j) ==> s.remove(
                i,
            )[slot(s.remove(i), j)].1 == s[slot(s, j)].1),
        forall|n: int| 0 <= n < s.remove(i).len() ==> has_key(s, (#[trigger] s.remove(i)[n]).0),
{
    let r = s.remove(i);
    let k = s[i].0;
    lemma_slot_unique(s, i);
    assert forall|a: int, b: int| 0 <= a < b < r.len() implies (#[trigger] r[a]).0 < (
    #[trigger] r[b]).0 by {
        let a0 = if a < i { a } else { a + 1 };
        let b0 = if b < i { b } else { b + 1 };
        assert(r[a] == s[a0]);
        assert(r[b] == s[b0]);
    }
    if has_key(r, k) {
        let n = slot(r, k);
        let n0 = if n < i { n } else { n + 1 };
        assert(r[n] == s[n0]);
        lemma_slot_unique(s, n0);
    }
    assert forall|j: u64| j != k implies has_key(r, j) == has_key(s, j) && (has_key(s, j)
        ==> r[slot(r, j)].1 == s[slot(s, j)].1) by {
        if has_key(s, j) {
            let n0 = slot(s, j);
            let n = if n0 < i { n0 } else { n0 - 1 };
            assert(r[n] == s[n0]);
            lemma_slot_unique(r, n);
        }
        if has_key(r, j) {
            let n = slot(r, j);
            let n0 = if n < i { n } else { n + 1 };
            assert(r[n] == s[n0]);
            lemma_slot_unique(s, n0);
        }
    }
    assert forall|n: int| 0 <= n < r.len() implies has_key(s, (#[trigger] r[n]).0) by {
        let n0 = if n < i { n } else { n + 1 };
        assert(r[n] == s[n0]);
    }
}

/// Taking out a key that is not there changes nothing.
pub proof fn lemma_absent<T>(s: Seq<(u64, T)>, k: u64)
    requires
        !has_key(s, k),
    ensures
        without(s, k) == s,
{
}

/// What putting another item under the key at place `i` leaves.
pub proof fn lemma_update<T>(s: Seq<(u64, T)>, i: int, item: T)
    requires
        ascending(s),
        0 <= i < s.len(),
    ensures
        ascending(s.update(i, (s[i].0, item))),
        slot(s, s[i].0) == i,
        has_key(s.update(i, (s[i].0, item)), s[i].0),
        s.update(i, (s[i].0, item))[slot(s.update(i, (s[i].0, item)), s[i].0)].1 == item,
        forall|j: u64|
            j != s[i].0 ==> has_key(s.update(i, (s[i].0, item)), j) == has_key(s, j) && (has_key(
                s,
                j,
            ) ==> s.update(i, (s[i].0, item))[slot(s.update(i, (s[i].0, item)), j)].1 == s[slot(
                s,
                j,
            )].1),
        forall|n: int|
            0 <= n < s.len() ==> (#[trigger] s.update(i, (s[i].0, item))[n]).0 == s[n].0,
{
    let k = s[i].0;
    let r = s.update(i, (k, item));
    lemma_slot_unique(s, i);
    assert forall|a: int, b: int| 0 <= a < b < r.len() implies (#[trigger] r[a]).0 < (
    #[trigger] r[b]).0 by {
        assert(r[a].0 == s[a].0);
        assert(r[b].0 == s[b].0);
    }
    assert(r[i].0 == k);
    lemma_slot_unique(r, i);
    assert forall|j: u64| j != k implies has_key(r, j) == has_key(s, j) && (has_key(s, j)
        ==> r[slot(r, j)].1 == s[slot(s, j)].1) by {
        if has_key(s, j) {
            let n = slot(s, j);
            assert(r[n] == s[n]);
            lemma_slot_unique(r, n);
        }
        if has_key(r, j) {
            let n = slot(r, j);
            assert(r[n].0 == s[n].0);
            lemma_slot_unique(s, n);
        }
    }
}

/// What adding an entry under a key above all others leaves.
pub proof fn lemma_push<T>(s: Seq<(u64, T)>, k: u64, item: T)
    requires
        ascending(s),
        forall|i: int| 0 <= i < s.len() ==> (#[trigger] s[i]).0 < k,
    ensures
        ascending(s.push((k, item))),
        has_key(s.push((k, item)), k),
        s.push((k, item))[slot(s.push((k, item)), k)].1 == item,
        forall|j: u64|
            j != k ==> has_key(s.push((k, item)), j) == has_key(s, j) && (has_key(s, j)
                ==> s.push((k, item))[slot(s.push((k, item)), j)].1 == s[slot(s, j)].1),
{
    let r = s.push((k, item));
    assert forall|a: int, b: int| 0 <= a < b < r.len() implies (#[trigger] r[a]).0 < (
    #[trigger] r[b]).0 by {
        if b < s.len() {
            assert(r[a] == s[a]);
            assert(r[b] == s[b]);
        } else {
            assert(r[a] == s[a]);
        }
    }
    assert(r[s.len() as int].0 == k);
    lemma_slot_unique(r, s.len() as int);
    assert forall|j: u64| j != k implies has_key(r, j) == has_key(s, j) && (has_key(s, j)
        ==> r[slot(r, j)].1 == s[slot(s, j)].1) by {
        if has_key(s, j) {
            let n = slot(s, j);
            assert(r[n] == s[n]);
            lemma_slot_unique(r, n);
        }
        if has_key(r, j) {
            let n = slot(r, j);
            assert(r[n] == s[n]);
            lemma_slot_unique(s, n);
        }
    }
}

/// What is left when a key is taken out was there before.
pub proof fn lemma_without_within<T>(s: Seq<(u64, T)>, k: u64)
    ensures
        forall|n: int| 0 <= n < without(s, k).len() ==> s.contains(#[trigger] without(s, k)[n]),
        without(s, k).len() <= s.len(),
{
    let r = without(s, k);
    if has_key(s, k) {
        let i = slot(s, k);
        assert(0 <= i < s.len() && s[i].0 == k);
        assert forall|n: int| 0 <= n < r.len() implies s.contains(#[trigger] r[n]) by {
            let m = if n < i {
                n
            } else {
                n + 1
            };
            assert(s[m] == r[n]);
        }
    } else {
        assert forall|n: int| 0 <= n < r.len() implies s.contains(#[trigger] r[n]) by {
            assert(s[n] == r[n]);
        }
    }
}

} // verus!
