//! A key-value cache bounded by the total weight of its values, evicting the least
//! recently used entries first.

use vstd::prelude::*;

verus! {

/// One cached value, its key, and its weight.
pub struct CacheEntry<V> {
    pub key: u64,
    pub value: V,
    pub weight: u64,
}

/// The total weight of the entries.
pub open spec fn weight_sum<V>(s: Seq<CacheEntry<V>>) -> int
    decreases s.len(),
{
    if s.len() == 0 {
        0
    } else {
        s[0].weight + weight_sum(s.drop_first())
    }
}

/// The entries without the one under `key`, if any.
pub open spec fn without_key<V>(s: Seq<CacheEntry<V>>, key: u64) -> Seq<CacheEntry<V>> {
    s.filter(|e: CacheEntry<V>| e.key != key)
}

/// The number of oldest entries of `s`, from `d` on, that must go so that the rest and
/// a new entry of weight `w` weigh at most `max` together.
pub open spec fn evict_count<V>(s: Seq<CacheEntry<V>>, w: int, max: int, d: int) -> int
    decreases s.len() - d,
{
    if d >= s.len() || weight_sum(s.subrange(d, s.len() as int)) + w <= max {
        d
    } else {
        evict_count(s, w, max, d + 1)
    }
}

/// The entries that remain after inserting `(key, value, w)` into `s` and evicting the
/// oldest entries until the total weight is at most `max`.
pub open spec fn after_add<V>(s: Seq<CacheEntry<V>>, key: u64, value: V, w: u64, max: u64) -> Seq<
    CacheEntry<V>,
> {
    let rest = without_key(s, key);
    let d = evict_count(rest, w as int, max as int, 0);
    if w <= max {
        rest.subrange(d, rest.len() as int).push(CacheEntry { key, value, weight: w })
    } else {
        Seq::empty()
    }
}

/// Whether some entry is stored under `key`.
pub open spec fn has_key<V>(s: Seq<CacheEntry<V>>, key: u64) -> bool {
    exists|i: int| 0 <= i < s.len() && (#[trigger] s[i]).key == key
}

/// The value stored under `key`, if any.
pub open spec fn lookup<V>(s: Seq<CacheEntry<V>>, key: u64) -> Option<V> {
    if has_key(s, key) {
        Some(s[choose|i: int| 0 <= i < s.len() && (#[trigger] s[i]).key == key].value)
    } else {
        None
    }
}

/// Every entry that remains after an insertion was there before, or is the new one.
pub proof fn lemma_after_add_members<V>(s: Seq<CacheEntry<V>>, key: u64, value: V, w: u64, max: u64)
    ensures
        forall|k: int|
            0 <= k < after_add(s, key, value, w, max).len() ==> #[trigger] after_add(
                s,
                key,
                value,
                w,
                max,
            )[k] == (CacheEntry { key, value, weight: w }) || s.contains(
                after_add(s, key, value, w, max)[k],
            ),
{
    let rest = without_key(s, key);
    s.filter_lemma(|e: CacheEntry<V>| e.key != key);
    let d = evict_count(rest, w as int, max as int, 0);
    lemma_evict_count_range(rest, w as int, max as int, 0);
    let a = after_add(s, key, value, w, max);
    assert forall|k: int| 0 <= k < a.len() implies #[trigger] a[k] == (CacheEntry {
        key,
        value,
        weight: w,
    }) || s.contains(a[k]) by {
        if w <= max && k < a.len() - 1 {
            assert(a[k] == rest[d + k]);
            assert(rest.contains(rest[d + k]));
            s.lemma_filter_contains_rev(|e: CacheEntry<V>| e.key != key, rest[d + k]);
        }
    }
}

proof fn lemma_evict_count_range<V>(s: Seq<CacheEntry<V>>, w: int, max: int, d: int)
    requires
        0 <= d,
    ensures
        d <= evict_count(s, w, max, d) <= if d <= s.len() { s.len() as int } else { d },
    decreases s.len() - d,
{
    if !(d >= s.len() || weight_sum(s.subrange(d, s.len() as int)) + w <= max) {
        lemma_evict_count_range(s, w, max, d + 1);
    }
}

/// No two entries share a key.
pub open spec fn keys_unique<V>(s: Seq<CacheEntry<V>>) -> bool {
    forall|i: int, j: int| 0 <= i < j < s.len() ==> (#[trigger] s[i]).key != (#[trigger] s[j]).key
}

/// The bounded cache; its entries run from least to most recently used.
pub struct LimitedCache<V> {
    entries: Vec<CacheEntry<V>>,
    total: u64,
    maximum_size: u64,
}

proof fn lemma_weight_sum_push<V>(s: Seq<CacheEntry<V>>, e: CacheEntry<V>)
    ensures
        weight_sum(s.push(e)) == weight_sum(s) + e.weight,
    decreases s.len(),
{
    if s.len() > 0 {
        lemma_weight_sum_push(s.drop_first(), e);
        assert(s.push(e).drop_first() =~= s.drop_first().push(e));
        assert(s.push(e)[0] == s[0]);
    } else {
        assert(s.push(e).drop_first() =~= Seq::<CacheEntry<V>>::empty());
        assert(weight_sum(s.push(e).drop_first()) == 0);
        assert(weight_sum(s) == 0);
    }
}

proof fn lemma_weight_sum_remove<V>(s: Seq<CacheEntry<V>>, i: int)
    requires
        0 <= i < s.len(),
    ensures
        weight_sum(s.remove(i)) == weight_sum(s) - s[i].weight,
    decreases s.len(),
{
    if i > 0 {
        lemma_weight_sum_remove(s.drop_first(), i - 1);
        assert(s.remove(i).drop_first() =~= s.drop_first().remove(i - 1));
    } else {
        assert(s.remove(0) =~= s.drop_first());
    }
}

proof fn lemma_weight_sum_nonneg<V>(s: Seq<CacheEntry<V>>)
    ensures
        weight_sum(s) >= 0,
    decreases s.len(),
{
    if s.len() > 0 {
        lemma_weight_sum_nonneg(s.drop_first());
    }
}

proof fn lemma_filter_remove<V>(s: Seq<CacheEntry<V>>, key: u64, i: int)
    requires
        0 <= i < s.len(),
        s[i].key == key,
        keys_unique(s),
    ensures
        without_key(s, key) == s.remove(i),
        keys_unique(s.remove(i)),
        !has_key(s.remove(i), key),
{
    let f = |e: CacheEntry<V>| e.key != key;
    assert(s =~= s.subrange(0, i) + seq![s[i]] + s.subrange(i + 1, s.len() as int));
    Seq::filter_distributes_over_add(s.subrange(0, i) + seq![s[i]], s.subrange(i + 1, s.len() as int), f);
    Seq::filter_distributes_over_add(s.subrange(0, i), seq![s[i]], f);
    lemma_filter_all(s.subrange(0, i), key);
    lemma_filter_all(s.subrange(i + 1, s.len() as int), key);
    reveal_with_fuel(Seq::filter, 2);
    assert(seq![s[i]].filter(f) =~= Seq::<CacheEntry<V>>::empty());
    assert(s.remove(i) =~= s.subrange(0, i) + s.subrange(i + 1, s.len() as int));
    assert(without_key(s, key) =~= s.remove(i));
    assert forall|a: int, b: int| 0 <= a < b < s.remove(i).len() implies (#[trigger] s.remove(
        i,
    )[a]).key != (#[trigger] s.remove(i)[b]).key by {
        let a2 = if a < i { a } else { a + 1 };
        let b2 = if b < i { b } else { b + 1 };
        assert(s.remove(i)[a] == s[a2]);
        assert(s.remove(i)[b] == s[b2]);
    }
    assert forall|a: int| 0 <= a < s.remove(i).len() implies (#[trigger] s.remove(i)[a]).key != key by {
        let a2 = if a < i { a } else { a + 1 };
        assert(s.remove(i)[a] == s[a2]);
    }
}

proof fn lemma_filter_all<V>(s: Seq<CacheEntry<V>>, key: u64)
    requires
        forall|k: int| 0 <= k < s.len() ==> (#[trigger] s[k]).key != key,
    ensures
        s.filter(|e: CacheEntry<V>| e.key != key) == s,
    decreases s.len(),
{
    reveal(Seq::filter);
    if s.len() > 0 {
        lemma_filter_all(s.drop_last(), key);
        assert(s.drop_last().push(s.last()) =~= s);
    } else {
        assert(s.filter(|e: CacheEntry<V>| e.key != key) =~= s);
    }
}

impl<V> LimitedCache<V> {
    /// The entries, from least to most recently used.
    pub closed spec fn entries(&self) -> Seq<CacheEntry<V>> {
        self.entries@
    }

    /// The largest total weight that the cache keeps.
    pub closed spec fn capacity(&self) -> u64 {
        self.maximum_size
    }

    /// The total weight is the sum of the entries' weights and at most the capacity,
    /// and no two entries share a key.
    pub closed spec fn wf(&self) -> bool {
        &&& self.total == weight_sum(self.entries@)
        &&& self.total <= self.maximum_size
        &&& keys_unique(self.entries@)
    }

    /// The total weight of the cached entries.
    pub open spec fn total_weight(&self) -> int {
        weight_sum(self.entries())
    }

    /// An empty cache that keeps at most `maximum_size` of total weight.
    pub fn with_maximum_size(maximum_size: u64) -> (r: LimitedCache<V>)
        ensures
            r.wf(),
            r.entries() == Seq::<CacheEntry<V>>::empty(),
            r.capacity() == maximum_size,
    {
        LimitedCache { entries: Vec::new(), total: 0, maximum_size }
    }

    /// The total weight of the cached entries.
    pub fn get_total(&self) -> (r: u64)
        requires
            self.wf(),
        ensures
            r == self.total_weight(),
            r <= self.capacity(),
    {
        self.total
    }

    fn find(&self, key: u64) -> (r: Option<usize>)
        ensures
            r matches Some(i) ==> i < self.entries@.len() && self.entries@[i as int].key == key,
            r is None ==> !has_key(self.entries@, key),
    {
        let mut i: usize = 0;
        while i < self.entries.len()
            invariant
                0 <= i <= self.entries@.len(),
                forall|k: int| 0 <= k < i ==> (#[trigger] self.entries@[k]).key != key,
            decreases self.entries@.len() - i,
        {
            if self.entries[i].key == key {
                return Some(i);
            }
            i += 1;
        }
        None
    }

    /// The value under `key`, if cached; the entry becomes the most recently used.
    pub fn get(&mut self, key: u64) -> (r: Option<&V>)
        requires
            old(self).wf(),
        ensures
            final(self).wf(),
            final(self).capacity() == old(self).capacity(),
            r is Some <==> has_key(old(self).entries(), key),
            match r {
                Some(v) => lookup(old(self).entries(), key) == Some(*v),
                None => lookup(old(self).entries(), key) is None,
            },
            r matches Some(v) ==> lookup(final(self).entries(), key) == Some(*v),
            match r {
                Some(v) => exists|i: int|
                    0 <= i < old(self).entries().len() && (#[trigger] old(self).entries()[i]).key
                        == key && old(self).entries()[i].value == *v && final(self).entries()
                        == old(self).entries().remove(i).push(old(self).entries()[i]),
                None => final(self).entries() == old(self).entries(),
            },
    {
        match self.find(key) {
            None => None,
            Some(i) => {
                let ghost s = self.entries@;
                let e = self.entries.remove(i);
                proof {
                    lemma_weight_sum_remove(s, i as int);
                    lemma_filter_remove(s, key, i as int);
                    lemma_weight_sum_push(s.remove(i as int), e);
                    assert forall|a: int, b: int|
                        0 <= a < b < s.remove(i as int).push(e).len() implies (#[trigger] s.remove(
                        i as int,
                    ).push(e)[a]).key != (#[trigger] s.remove(i as int).push(e)[b]).key by {
                        if b == s.remove(i as int).len() {
                            assert(s.remove(i as int)[a].key != key);
                        } else {
                            assert(s.remove(i as int).push(e)[a] == s.remove(i as int)[a]);
                            assert(s.remove(i as int).push(e)[b] == s.remove(i as int)[b]);
                        }
                    }
                }
                self.entries.push(e);
                proof {
                    assert(s[i as int].key == key);
                    assert(self.entries@ == s.remove(i as int).push(s[i as int]));
                }
                let n = self.entries.len();
                let v = &self.entries[n - 1].value;
                proof {
                    assert(self.entries@[n - 1] == s[i as int]);
                    assert(*v == s[i as int].value);
                    assert(s == old(self).entries());
                    assert(old(self).entries()[i as int].key == key);
                    let c = choose|c: int| 0 <= c < s.len() && (#[trigger] s[c]).key == key;
                    if c != i {
                        if c < i {
                            assert(s[c].key != s[i as int].key);
                        } else {
                            assert(s[i as int].key != s[c].key);
                        }
                    }
                    assert(self.entries() == old(self).entries().remove(i as int).push(old(self).entries()[i as int]));
                    let f = self.entries@;
                    assert(f[n - 1].key == key);
                    let c2 = choose|c: int| 0 <= c < f.len() && (#[trigger] f[c]).key == key;
                    if c2 != n - 1 {
                        assert(f[c2].key != f[n - 1].key);
                    }
                }
                Some(v)
            },
        }
    }

    /// Caches `value` under `key` with the given weight, replacing what was cached under
    /// `key`, then evicts the least recently used entries until the total weight is at
    /// most the capacity. A value heavier than the capacity is itself evicted.
    pub fn add(&mut self, key: u64, value: V, weight: u64)
        requires
            old(self).wf(),
        ensures
            final(self).wf(),
            final(self).capacity() == old(self).capacity(),
            final(self).entries() == after_add(
                old(self).entries(),
                key,
                value,
                weight,
                old(self).capacity(),
            ),
            final(self).total_weight() <= final(self).capacity(),
            weight <= final(self).capacity() ==> final(self).entries().last() == (CacheEntry {
                key,
                value,
                weight,
            }),
            weight <= final(self).capacity() ==> lookup(final(self).entries(), key) == Some(value),
    {
        let ghost s0 = self.entries@;
        match self.find(key) {
            Some(i) => {
                let e = self.entries.remove(i);
                proof {
                    lemma_weight_sum_remove(s0, i as int);
                    lemma_weight_sum_nonneg(s0.remove(i as int));
                    lemma_filter_remove(s0, key, i as int);
                }
                self.total = self.total - e.weight;
            },
            None => {
                proof {
                    assert forall|k: int| 0 <= k < s0.len() implies (#[trigger] s0[k]).key != key by {
                        if s0[k].key == key {
                            assert(has_key(s0, key));
                        }
                    }
                    lemma_filter_all(s0, key);
                }
            },
        }
        let ghost rest = self.entries@;
        assert(rest == without_key(s0, key));
        let max = self.maximum_size;
        let ghost mut d: int = 0;
        proof {
            assert(rest.subrange(0, rest.len() as int) =~= rest);
        }
        while self.entries.len() > 0 && weight > max - self.total
            invariant
                self.total == weight_sum(self.entries@),
                self.total <= max,
                max == self.maximum_size,
                0 <= d <= rest.len(),
                self.entries@ == rest.subrange(d, rest.len() as int),
                keys_unique(self.entries@),
                forall|k: int| 0 <= k < self.entries@.len() ==> (#[trigger] self.entries@[k]).key != key,
                evict_count(rest, weight as int, max as int, 0) == evict_count(
                    rest,
                    weight as int,
                    max as int,
                    d,
                ),
            decreases self.entries@.len(),
        {
            let ghost s = self.entries@;
            let e = self.entries.remove(0);
            proof {
                lemma_weight_sum_remove(s, 0);
                lemma_weight_sum_nonneg(s.remove(0));
                assert(s.remove(0) =~= rest.subrange(d + 1, rest.len() as int));
                assert forall|a: int, b: int| 0 <= a < b < s.remove(0).len() implies (#[trigger] s.remove(
                    0,
                )[a]).key != (#[trigger] s.remove(0)[b]).key by {
                    assert(s.remove(0)[a] == s[a + 1]);
                    assert(s.remove(0)[b] == s[b + 1]);
                }
                assert forall|k: int| 0 <= k < s.remove(0).len() implies (#[trigger] s.remove(0)[k]).key != key by {
                    assert(s.remove(0)[k] == s[k + 1]);
                }
                d = d + 1;
            }
            self.total = self.total - e.weight;
        }
        proof {
            assert(evict_count(rest, weight as int, max as int, d) == d);
        }
        if weight <= max - self.total {
            let ghost s = self.entries@;
            let entry = CacheEntry { key, value, weight };
            self.entries.push(entry);
            proof {
                lemma_weight_sum_push(s, entry);
                assert forall|a: int, b: int| 0 <= a < b < s.push(entry).len() implies (#[trigger] s.push(
                    entry,
                )[a]).key != (#[trigger] s.push(entry)[b]).key by {
                    if b == s.len() {
                        assert(s[a].key != key);
                    } else {
                        assert(s.push(entry)[a] == s[a]);
                        assert(s.push(entry)[b] == s[b]);
                    }
                }
            }
            self.total = self.total + weight;
        } else {
            proof {
                assert(self.entries@.len() == 0);
                assert(self.entries@ =~= Seq::<CacheEntry<V>>::empty());
            }
        }
    }
}

} // verus!
