use vstd::laws_eq::obeys_concrete_eq;
use vstd::prelude::*;

verus! {

// ---------------------------------------------------------------------------
// The recency model: a sequence of (key, value) entries, least recently used
// first and most recently used last.
// ---------------------------------------------------------------------------

/// Whether `k` is one of the keys of `s`.
pub open spec fn has_key<K, V>(s: Seq<(K, V)>, k: K) -> bool {
    exists|i: int| 0 <= i < s.len() && #[trigger] s[i].0 == k
}

/// The position of key `k` in `s` (meaningful when `has_key(s, k)`).
pub open spec fn key_pos<K, V>(s: Seq<(K, V)>, k: K) -> int {
    choose|i: int| 0 <= i < s.len() && #[trigger] s[i].0 == k
}

/// No key occurs twice.
pub open spec fn keys_distinct<K, V>(s: Seq<(K, V)>) -> bool {
    forall|i: int, j: int| 0 <= i < s.len() && 0 <= j < s.len() && i != j ==> s[i].0 != s[j].0
}

/// The keys of `s`, in recency order.
pub open spec fn keys_of<K, V>(s: Seq<(K, V)>) -> Seq<K> {
    s.map_values(|e: (K, V)| e.0)
}

/// The value stored under `k`, if any.
pub open spec fn lookup<K, V>(s: Seq<(K, V)>, k: K) -> Option<V> {
    if has_key(s, k) {
        Some(s[key_pos(s, k)].1)
    } else {
        None
    }
}

/// The order after a hit on `k`: its entry becomes the most recently used.
pub open spec fn touch<K, V>(s: Seq<(K, V)>, k: K) -> Seq<(K, V)> {
    if has_key(s, k) {
        s.remove(key_pos(s, k)).push(s[key_pos(s, k)])
    } else {
        s
    }
}

/// The entries after `put(k, v)` on a cache of capacity `cap`.
/// An existing key is overwritten and promoted; a new key first evicts the
/// least recently used entry when the cache is full. A cache of capacity
/// zero holds nothing.
pub open spec fn put_entries<K, V>(s: Seq<(K, V)>, cap: nat, k: K, v: V) -> Seq<(K, V)> {
    if has_key(s, k) {
        s.remove(key_pos(s, k)).push((k, v))
    } else if cap == 0 {
        s
    } else if s.len() >= cap {
        s.drop_first().push((k, v))
    } else {
        s.push((k, v))
    }
}

/// The entries after removing `k`.
pub open spec fn remove_entries<K, V>(s: Seq<(K, V)>, k: K) -> Seq<(K, V)> {
    if has_key(s, k) {
        s.remove(key_pos(s, k))
    } else {
        s
    }
}

/// The entries after putting each `ks[i]` with `vs[i]` in turn.
pub open spec fn put_all<K, V>(s: Seq<(K, V)>, cap: nat, ks: Seq<K>, vs: Seq<V>) -> Seq<(K, V)>
    decreases ks.len(),
{
    if ks.len() == 0 || vs.len() < ks.len() {
        s
    } else {
        put_entries(
            put_all(s, cap, ks.drop_last(), vs.subrange(0, ks.len() - 1)),
            cap,
            ks.last(),
            vs[ks.len() - 1],
        )
    }
}

pub proof fn lemma_key_pos<K, V>(s: Seq<(K, V)>, i: int)
    requires
        keys_distinct(s),
        0 <= i < s.len(),
    ensures
        has_key(s, s[i].0),
        key_pos(s, s[i].0) == i,
{
    assert(s[i].0 == s[i].0);
    let j = key_pos(s, s[i].0);
    assert(0 <= j < s.len() && s[j].0 == s[i].0);
}

/// Removing a key from entries with distinct keys leaves no entry under it.
pub proof fn lemma_removed_absent<K, V>(s: Seq<(K, V)>, k: K)
    requires
        keys_distinct(s),
    ensures
        !has_key(remove_entries(s, k), k),
        keys_distinct(remove_entries(s, k)),
{
    if has_key(s, k) {
        let p = key_pos(s, k);
        let t = s.remove(p);
        lemma_remove_distinct(s, p);
        assert(forall|i: int| 0 <= i < t.len() ==> #[trigger] t[i] == if i < p { s[i] } else { s[i + 1] });
        if has_key(t, k) {
            let j = key_pos(t, k);
            if j < p {
                assert(s[j].0 == k);
            } else {
                assert(s[j + 1].0 == k);
            }
        }
    }
}

/// After `put(k, v)` on a cache that can hold anything, `k` holds `v`.
pub proof fn lemma_put_then_lookup<K, V>(s: Seq<(K, V)>, cap: nat, k: K, v: V)
    requires
        keys_distinct(s),
        s.len() <= cap,
        cap > 0,
    ensures
        lookup(put_entries(s, cap, k, v), k) == Some(v),
{
    lemma_put_distinct(s, cap, k, v);
    let r = put_entries(s, cap, k, v);
    assert(r.last() == (k, v));
    lemma_key_pos(r, r.len() - 1);
}

pub proof fn lemma_put_distinct<K, V>(s: Seq<(K, V)>, cap: nat, k: K, v: V)
    requires
        keys_distinct(s),
        s.len() <= cap,
    ensures
        keys_distinct(put_entries(s, cap, k, v)),
        put_entries(s, cap, k, v).len() <= cap,
{
    let r = put_entries(s, cap, k, v);
    if has_key(s, k) {
        let p = key_pos(s, k);
        let t = s.remove(p);
        assert(forall|i: int| 0 <= i < t.len() ==> #[trigger] t[i] == if i < p { s[i] } else { s[i + 1] });
        assert forall|i: int, j: int| 0 <= i < r.len() && 0 <= j < r.len() && i != j implies r[i].0 != r[j].0 by {
            if i == r.len() - 1 || j == r.len() - 1 {
            } else {
            }
        }
    } else if cap == 0 {
    } else if s.len() >= cap {
        let t = s.drop_first();
        assert(forall|i: int| 0 <= i < t.len() ==> #[trigger] t[i] == s[i + 1]);
        assert forall|i: int, j: int| 0 <= i < r.len() && 0 <= j < r.len() && i != j implies r[i].0 != r[j].0 by {
            if i == r.len() - 1 {
                assert(r[j] == s[j + 1]);
            } else if j == r.len() - 1 {
                assert(r[i] == s[i + 1]);
            } else {
            }
        }
    } else {
        assert forall|i: int, j: int| 0 <= i < r.len() && 0 <= j < r.len() && i != j implies r[i].0 != r[j].0 by {
            if i == r.len() - 1 {
                assert(r[j] == s[j]);
            } else if j == r.len() - 1 {
                assert(r[i] == s[i]);
            } else {
            }
        }
    }
}

pub proof fn lemma_remove_distinct<K, V>(s: Seq<(K, V)>, p: int)
    requires
        keys_distinct(s),
        0 <= p < s.len(),
    ensures
        keys_distinct(s.remove(p)),
        keys_distinct(s.remove(p).push(s[p])),
{
    let t = s.remove(p);
    assert(forall|i: int| 0 <= i < t.len() ==> #[trigger] t[i] == if i < p { s[i] } else { s[i + 1] });
    let r = t.push(s[p]);
    assert forall|i: int, j: int| 0 <= i < r.len() && 0 <= j < r.len() && i != j implies r[i].0 != r[j].0 by {
        if i == r.len() - 1 || j == r.len() - 1 {
        } else {
        }
    }
}

proof fn lemma_fill_prefix<K, V>(cap: nat, ks: Seq<K>, vs: Seq<V>, n: nat)
    requires
        ks.no_duplicates(),
        vs.len() == ks.len(),
        n <= cap,
        n <= ks.len(),
    ensures
        keys_of(put_all(Seq::<(K, V)>::empty(), cap, ks.subrange(0, n as int), vs.subrange(0, n as int)))
            == ks.subrange(0, n as int),
        keys_distinct(put_all(Seq::<(K, V)>::empty(), cap, ks.subrange(0, n as int), vs.subrange(0, n as int))),
    decreases n,
{
    let e = Seq::<(K, V)>::empty();
    let kp = ks.subrange(0, n as int);
    let vp = vs.subrange(0, n as int);
    if n == 0 {
        assert(keys_of(e) =~= kp);
    } else {
        lemma_fill_prefix(cap, ks, vs, (n - 1) as nat);
        assert(kp.drop_last() =~= ks.subrange(0, n - 1));
        assert(vp.subrange(0, n - 1) =~= vs.subrange(0, n - 1));
        let s = put_all(e, cap, ks.subrange(0, n - 1), vs.subrange(0, n - 1));
        let k = ks[n - 1];
        assert(kp.last() == k);
        assert(s.len() == n - 1) by {
            assert(keys_of(s).len() == s.len());
        }
        assert(!has_key(s, k)) by {
            if has_key(s, k) {
                let i = key_pos(s, k);
                assert(keys_of(s)[i] == k);
                assert(ks[i] == ks[n - 1]);
            }
        }
        assert(put_all(e, cap, kp, vp) == s.push((k, vs[n - 1])));
        assert(keys_of(s.push((k, vs[n - 1]))) =~= kp);
        lemma_put_distinct(s, cap, k, vs[n - 1]);
    }
}

/// Filling an empty cache of capacity `cap` with `cap + 1` distinct keys,
/// with no access in between, evicts exactly the first key put: the keys
/// left are all the others, in the order they were put.
pub proof fn lemma_capacity_eviction<K, V>(cap: nat, ks: Seq<K>, vs: Seq<V>)
    requires
        ks.len() == cap + 1,
        vs.len() == ks.len(),
        ks.no_duplicates(),
    ensures
        keys_of(put_all(Seq::<(K, V)>::empty(), cap, ks, vs)) == ks.subrange(1, ks.len() as int),
{
    let e = Seq::<(K, V)>::empty();
    lemma_fill_prefix(cap, ks, vs, cap);
    assert(ks.drop_last() =~= ks.subrange(0, cap as int));
    assert(vs.subrange(0, cap as int) =~= vs.subrange(0, ks.len() - 1));
    let s = put_all(e, cap, ks.subrange(0, cap as int), vs.subrange(0, cap as int));
    let k = ks[cap as int];
    assert(s.len() == cap) by {
        assert(keys_of(s).len() == s.len());
    }
    assert(!has_key(s, k)) by {
        if has_key(s, k) {
            let i = key_pos(s, k);
            assert(keys_of(s)[i] == k);
            assert(ks[i] == ks[cap as int]);
        }
    }
    if cap == 0 {
        assert(keys_of(s) =~= ks.subrange(1, ks.len() as int));
    } else {
        let r = s.drop_first().push((k, vs[cap as int]));
        assert forall|i: int| 0 <= i < r.len() implies #[trigger] keys_of(r)[i] == ks.subrange(
            1,
            ks.len() as int,
        )[i] by {
            if i < cap - 1 {
                assert(r[i] == s[i + 1]);
                assert(keys_of(s)[i + 1] == ks[i + 1]);
            }
        }
        assert(keys_of(r) =~= ks.subrange(1, ks.len() as int));
    }
}

/// A hit on a resident key protects it from the next eviction, even when
/// it was the least recently used entry, provided the cache holds at least
/// two entries' worth.
pub proof fn lemma_access_protects<K, V>(s: Seq<(K, V)>, cap: nat, k: K, k2: K, v2: V)
    requires
        keys_distinct(s),
        s.len() <= cap,
        cap >= 2,
        has_key(s, k),
        k2 != k,
    ensures
        has_key(put_entries(touch(s, k), cap, k2, v2), k),
{
    let p = key_pos(s, k);
    let t = touch(s, k);
    assert(t.len() == s.len());
    let n = t.len();
    assert(t[n - 1].0 == k);
    lemma_remove_distinct(s, p);
    let r = put_entries(t, cap, k2, v2);
    if has_key(t, k2) {
        let q = key_pos(t, k2);
        assert(q != n - 1);
        assert(r[n - 2] == t[n - 1]);
    } else if t.len() >= cap {
        assert(r[n - 2] == t[n - 1]);
    } else {
        assert(r[n - 1] == t[n - 1]);
    }
}

/// A bounded key/value cache that evicts the least recently used entry.
pub struct LRUCache<K, V> {
    entries: Vec<(K, V)>,
    capacity: usize,
}

impl<K, V> View for LRUCache<K, V> {
    type V = Seq<(K, V)>;

    /// The entries, least recently used first.
    closed spec fn view(&self) -> Seq<(K, V)> {
        self.entries@
    }
}

impl<K: PartialEq, V> LRUCache<K, V> {
    /// The capacity fixed at construction.
    pub closed spec fn cap(&self) -> nat {
        self.capacity as nat
    }

    pub closed spec fn wf(&self) -> bool {
        &&& obeys_concrete_eq::<K>()
        &&& keys_distinct(self.entries@)
        &&& self.entries@.len() <= self.capacity
    }

    pub proof fn lemma_wf(&self)
        requires
            self.wf(),
        ensures
            keys_distinct(self@),
            self@.len() <= self.cap(),
            obeys_concrete_eq::<K>(),
    {
    }

    /// Position of `key` in the entries, if it is there.
    fn find(&self, key: &K) -> (r: Option<usize>)
        requires
            self.wf(),
        ensures
            match r {
                Some(i) => i < self@.len() && self@[i as int].0 == *key && has_key(self@, *key)
                    && key_pos(self@, *key) == i,
                None => !has_key(self@, *key),
            },
    {
        let mut i: usize = 0;
        while i < self.entries.len()
            invariant
                self.wf(),
                i <= self.entries@.len(),
                forall|j: int| 0 <= j < i ==> self.entries@[j].0 != *key,
            decreases self.entries@.len() - i,
        {
            proof {
                reveal(obeys_concrete_eq);
            }
            if self.entries[i].0.eq(key) {
                proof {
                    lemma_key_pos(self.entries@, i as int);
                }
                return Some(i);
            }
            i = i + 1;
        }
        None
    }

    pub fn new(capacity: usize) -> (r: Self)
        requires
            obeys_concrete_eq::<K>(),
        ensures
            r.wf(),
            r@ == Seq::<(K, V)>::empty(),
            r.cap() == capacity,
    {
        LRUCache { entries: Vec::new(), capacity }
    }

    /// Moves the entry at `i` to the most recently used end.
    fn update_access_order(&mut self, i: usize)
        requires
            old(self).wf(),
            i < old(self)@.len(),
        ensures
            final(self).wf(),
            final(self).cap() == old(self).cap(),
            final(self)@ == old(self)@.remove(i as int).push(old(self)@[i as int]),
    {
        proof {
            lemma_remove_distinct(self.entries@, i as int);
        }
        let e = self.entries.remove(i);
        self.entries.push(e);
    }

    /// The value under `key`, which becomes the most recently used entry.
    pub fn get(&mut self, key: &K) -> (r: Option<&V>)
        requires
            old(self).wf(),
        ensures
            final(self).wf(),
            final(self).cap() == old(self).cap(),
            final(self)@ == touch(old(self)@, *key),
            match r {
                Some(v) => lookup(old(self)@, *key) == Some(*v),
                None => lookup(old(self)@, *key) is None,
            },
    {
        match self.find(key) {
            Some(i) => {
                self.update_access_order(i);
                let last = self.entries.len() - 1;
                Some(&self.entries[last].1)
            },
            None => None,
        }
    }

    /// Stores `value` under `key`. A new key evicts the least recently used
    /// entry first when the cache is full; an existing key is overwritten
    /// and promoted.
    pub fn insert(&mut self, key: K, value: V)
        requires
            old(self).wf(),
        ensures
            final(self).wf(),
            final(self).cap() == old(self).cap(),
            final(self)@ == put_entries(old(self)@, old(self).cap(), key, value),
    {
        proof {
            lemma_put_distinct(self.entries@, self.capacity as nat, key, value);
        }
        match self.find(&key) {
            Some(i) => {
                self.entries.remove(i);
                self.entries.push((key, value));
            },
            None => {
                if self.capacity == 0 {
                    return;
                }
                if self.entries.len() >= self.capacity {
                    self.entries.remove(0);
                }
                self.entries.push((key, value));
            },
        }
    }

    /// Removes `key` regardless of its recency, returning its value.
    pub fn remove(&mut self, key: &K) -> (r: Option<V>)
        requires
            old(self).wf(),
        ensures
            final(self).wf(),
            final(self).cap() == old(self).cap(),
            final(self)@ == remove_entries(old(self)@, *key),
            r == lookup(old(self)@, *key),
    {
        match self.find(key) {
            Some(i) => {
                proof {
                    lemma_remove_distinct(self.entries@, i as int);
                }
                let e = self.entries.remove(i);
                Some(e.1)
            },
            None => None,
        }
    }

    pub fn contains_key(&self, key: &K) -> (r: bool)
        requires
            self.wf(),
        ensures
            r == has_key(self@, *key),
    {
        self.find(key).is_some()
    }

    pub fn len(&self) -> (r: usize)
        ensures
            r == self@.len(),
    {
        self.entries.len()
    }

    pub fn is_empty(&self) -> (r: bool)
        ensures
            r == (self@.len() == 0),
    {
        self.entries.len() == 0
    }

    pub fn clear(&mut self)
        requires
            old(self).wf(),
        ensures
            final(self).wf(),
            final(self).cap() == old(self).cap(),
            final(self)@ == Seq::<(K, V)>::empty(),
    {
        self.entries.clear();
    }

    /// Replaces the value under `key` in place, leaving the recency order as
    /// it is; returns whether `key` was there.
    pub fn replace(&mut self, key: &K, value: V) -> (r: bool)
        requires
            old(self).wf(),
        ensures
            final(self).wf(),
            final(self).cap() == old(self).cap(),
            r == has_key(old(self)@, *key),
            r ==> final(self)@ == old(self)@.update(
                key_pos(old(self)@, *key),
                (old(self)@[key_pos(old(self)@, *key)].0, value),
            ),
            !r ==> final(self)@ == old(self)@,
    {
        match self.find(key) {
            Some(i) => {
                let ghost pre = self.entries@;
                let e = self.entries.remove(i);
                self.entries.insert(i, (e.0, value));
                proof {
                    let s = self.entries@;
                    assert(s =~= pre.update(i as int, (pre[i as int].0, value)));
                    assert forall|a: int, b: int| 0 <= a < s.len() && 0 <= b < s.len() && a != b implies s[a].0
                        != s[b].0 by {
                        assert(s[a].0 == pre[a].0 && s[b].0 == pre[b].0);
                    }
                }
                true
            },
            None => false,
        }
    }

    /// The value under `key`, leaving the recency order as it is.
    pub fn peek(&self, key: &K) -> (r: Option<&V>)
        requires
            self.wf(),
        ensures
            match r {
                Some(v) => lookup(self@, *key) == Some(*v),
                None => lookup(self@, *key) is None,
            },
    {
        match self.find(key) {
            Some(i) => Some(&self.entries[i].1),
            None => None,
        }
    }

    /// The key that the next eviction would drop.
    pub fn least_recent(&self) -> (r: Option<&K>)
        ensures
            match r {
                Some(k) => self@.len() > 0 && *k == self@[0].0,
                None => self@.len() == 0,
            },
    {
        if self.entries.len() == 0 {
            None
        } else {
            Some(&self.entries[0].0)
        }
    }
}

/// Identity of one cached page image.
#[derive(Clone, Copy, Debug, Eq, Hash)]
pub struct PageKey {
    pub address: u64,
    pub size: usize,
}

impl PartialEq for PageKey {
    fn eq(&self, o: &PageKey) -> (r: bool)
        ensures
            r == (self.address == o.address && self.size == o.size),
    {
        self.address == o.address && self.size == o.size
    }
}

impl vstd::std_specs::cmp::PartialEqSpecImpl for PageKey {
    open spec fn obeys_eq_spec() -> bool {
        true
    }

    open spec fn eq_spec(&self, o: &PageKey) -> bool {
        self.address == o.address && self.size == o.size
    }
}

pub proof fn lemma_page_key_eq()
    ensures
        obeys_concrete_eq::<PageKey>(),
{
    reveal(obeys_concrete_eq);
}

/// Whether every cached image has exactly the size that its key names.
pub open spec fn images_sized(s: Seq<(PageKey, Vec<u8>)>) -> bool {
    forall|i: int| 0 <= i < s.len() ==> (#[trigger] s[i]).1@.len() == s[i].0.size
}

proof fn lemma_sized_keep(s: Seq<(PageKey, Vec<u8>)>, k: PageKey)
    requires
        images_sized(s),
        keys_distinct(s),
    ensures
        images_sized(touch(s, k)),
        images_sized(remove_entries(s, k)),
{
    if has_key(s, k) {
        let p = key_pos(s, k);
        let t = s.remove(p);
        assert(forall|i: int| 0 <= i < t.len() ==> #[trigger] t[i] == if i < p { s[i] } else { s[i + 1] });
        assert(images_sized(t));
        assert(images_sized(t.push(s[p])));
    }
}

proof fn lemma_sized_ops(s: Seq<(PageKey, Vec<u8>)>, cap: nat, k: PageKey, v: Vec<u8>)
    requires
        images_sized(s),
        keys_distinct(s),
    ensures
        v@.len() == k.size ==> images_sized(put_entries(s, cap, k, v)),
{
    if has_key(s, k) {
        let p = key_pos(s, k);
        let t = s.remove(p);
        assert(forall|i: int| 0 <= i < t.len() ==> #[trigger] t[i] == if i < p { s[i] } else { s[i + 1] });
        assert(images_sized(t));
        assert(images_sized(t.push(s[p])));
        if v@.len() == k.size {
            assert(images_sized(t.push((k, v))));
        }
    } else if cap == 0 {
    } else if s.len() >= cap {
        let t = s.drop_first();
        assert(forall|i: int| 0 <= i < t.len() ==> #[trigger] t[i] == s[i + 1]);
        if v@.len() == k.size {
            assert(images_sized(t.push((k, v))));
        }
    } else {
        if v@.len() == k.size {
            assert(images_sized(s.push((k, v))));
        }
    }
}

/// Page images keyed by (address, size), with least-recently-used eviction.
pub struct PageCache {
    pub lru: LRUCache<PageKey, Vec<u8>>,
}

impl PageCache {
    pub open spec fn wf(&self) -> bool {
        &&& self.lru.wf()
        &&& images_sized(self.lru@)
    }

    pub fn new(capacity: usize) -> (r: Self)
        ensures
            r.wf(),
            r.lru@ == Seq::<(PageKey, Vec<u8>)>::empty(),
            r.lru.cap() == capacity,
    {
        proof {
            lemma_page_key_eq();
        }
        PageCache { lru: LRUCache::new(capacity) }
    }

    /// The image of page (`address`, `size`), which becomes the most
    /// recently used entry.
    pub fn get_page(&mut self, address: u64, size: usize) -> (r: Option<&[u8]>)
        requires
            old(self).wf(),
        ensures
            final(self).wf(),
            final(self).lru.cap() == old(self).lru.cap(),
            final(self).lru@ == touch(old(self).lru@, PageKey { address, size }),
            match r {
                Some(d) => lookup(old(self).lru@, PageKey { address, size }) matches Some(v) && d@
                    == v@,
                None => !has_key(old(self).lru@, PageKey { address, size }),
            },
    {
        let key = PageKey { address, size };
        proof {
            lemma_sized_keep(self.lru@, key);
        }
        match self.lru.get(&key) {
            Some(v) => Some(v.as_slice()),
            None => None,
        }
    }

    /// The image of page (`address`, `size`), leaving the recency order as
    /// it is.
    pub fn peek_page(&self, address: u64, size: usize) -> (r: Option<&[u8]>)
        requires
            self.wf(),
        ensures
            match r {
                Some(d) => lookup(self.lru@, PageKey { address, size }) matches Some(v) && d@
                    == v@,
                None => !has_key(self.lru@, PageKey { address, size }),
            },
    {
        let key = PageKey { address, size };
        match self.lru.peek(&key) {
            Some(v) => Some(v.as_slice()),
            None => None,
        }
    }

    /// Replaces the image of page (`address`, `size`) with `data` if it is
    /// cached, leaving the recency order as it is; returns whether it was.
    pub fn refresh_page(&mut self, address: u64, size: usize, data: Vec<u8>) -> (r: bool)
        requires
            old(self).wf(),
            data@.len() == size,
        ensures
            final(self).wf(),
            final(self).lru.cap() == old(self).lru.cap(),
            r == has_key(old(self).lru@, PageKey { address, size }),
            r ==> final(self).lru@ == old(self).lru@.update(
                key_pos(old(self).lru@, PageKey { address, size }),
                (PageKey { address, size }, data),
            ),
            !r ==> final(self).lru@ == old(self).lru@,
    {
        let key = PageKey { address, size };
        let ghost pre = self.lru@;
        let r = self.lru.replace(&key, data);
        proof {
            if r {
                let p = key_pos(pre, key);
                assert(pre[p].0 == key);
                let s = self.lru@;
                assert forall|i: int| 0 <= i < s.len() implies (#[trigger] s[i]).1@.len() == s[i].0.size by {
                    if i != p {
                        assert(s[i] == pre[i]);
                    }
                }
            }
        }
        r
    }

    /// The key of the least recently used image.
    pub fn least_recent(&self) -> (r: Option<PageKey>)
        ensures
            match r {
                Some(k) => self.lru@.len() > 0 && k == self.lru@[0].0,
                None => self.lru@.len() == 0,
            },
    {
        match self.lru.least_recent() {
            Some(k) => Some(*k),
            None => None,
        }
    }

    /// Stores `data` as the image of page (`address`, `size`).
    pub fn insert_page(&mut self, address: u64, size: usize, data: Vec<u8>)
        requires
            old(self).wf(),
            data@.len() == size,
        ensures
            final(self).wf(),
            final(self).lru.cap() == old(self).lru.cap(),
            final(self).lru@ == put_entries(
                old(self).lru@,
                old(self).lru.cap(),
                PageKey { address, size },
                data,
            ),
    {
        let key = PageKey { address, size };
        proof {
            lemma_sized_ops(self.lru@, self.lru.cap(), key, data);
        }
        self.lru.insert(key, data);
    }

    /// Removes the image of page (`address`, `size`) and hands it back.
    pub fn remove_page(&mut self, address: u64, size: usize) -> (r: Option<Vec<u8>>)
        requires
            old(self).wf(),
        ensures
            final(self).wf(),
            final(self).lru.cap() == old(self).lru.cap(),
            final(self).lru@ == remove_entries(old(self).lru@, PageKey { address, size }),
            r == lookup(old(self).lru@, PageKey { address, size }),
    {
        let key = PageKey { address, size };
        proof {
            lemma_sized_keep(self.lru@, key);
        }
        self.lru.remove(&key)
    }

    pub fn clear(&mut self)
        requires
            old(self).wf(),
        ensures
            final(self).wf(),
            final(self).lru.cap() == old(self).lru.cap(),
            final(self).lru@ == Seq::<(PageKey, Vec<u8>)>::empty(),
    {
        self.lru.clear();
    }
}

} // verus!
