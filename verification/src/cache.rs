//! Byte-budgeted LRU caches of page bitmaps.
//!
//! `ImageCache<CacheKey>` stores original bitmaps keyed by `(page, scale_q)`,
//! where `scale_q` is the render scale in hundredths of a pixel per point.
//! `ImageCache<RecolorKey>` stores recolored bitmaps keyed additionally by the
//! colors the recolor pass mapped onto. Budgets count RGBA bytes.
//!
//! Entries are held in recency order, least recently used first; keys are
//! unique, and the cached bytes never exceed the budget.

use vstd::prelude::*;

verus! {

/// Default budget in bytes: 192 MB.
pub const DEFAULT_BUDGET_BYTES: usize = 201326592;

/// Budget of the recolored-bitmap cache: 96 MB.
pub const RECOLORED_BUDGET_BYTES: usize = 100663296;

/// A key the cache can compare: equality is the key's own structural equality.
pub trait CacheKeyed: Copy {
    /// Whether two keys are the same key.
    fn same_key(&self, other: &Self) -> (r: bool)
        ensures
            r == (*self == *other),
    ;
}

/// Bitmap cache key: page index plus quantized render scale.
#[derive(Clone, Copy, Debug, PartialEq, Eq, Structural, Hash, PartialOrd, Ord)]
pub struct CacheKey {
    pub page: usize,
    pub scale_q: u16,
}

/// Recolored-bitmap cache key: [`CacheKey`] plus the page colors the recolor
/// pass mapped onto.
#[derive(Clone, Copy, Debug, PartialEq, Eq, Structural, Hash, PartialOrd, Ord)]
pub struct RecolorKey {
    pub page: usize,
    pub scale_q: u16,
    pub theme: u64,
}

impl CacheKeyed for CacheKey {
    fn same_key(&self, other: &Self) -> (r: bool) {
        self.page == other.page && self.scale_q == other.scale_q
    }
}

impl CacheKeyed for RecolorKey {
    fn same_key(&self, other: &Self) -> (r: bool) {
        self.page == other.page && self.scale_q == other.scale_q && self.theme == other.theme
    }
}

/// Borrowed view of a cached bitmap.
#[derive(Clone, Copy)]
pub struct CachedImage<'a> {
    pub width: u32,
    pub height: u32,
    pub rgba: &'a [u8],
}

struct Entry<K> {
    key: K,
    width: u32,
    height: u32,
    rgba: Vec<u8>,
}

/// One cached bitmap as a value: key, width, height, bytes.
pub type Slot<K> = (K, u32, u32, Seq<u8>);

/// Total bytes of the bitmaps in `s`.
pub open spec fn total_bytes<K>(s: Seq<Slot<K>>) -> nat
    decreases s.len(),
{
    if s.len() == 0 {
        0
    } else {
        s[0].3.len() + total_bytes(s.drop_first())
    }
}

/// No key occurs twice.
pub open spec fn unique_keys<K>(s: Seq<Slot<K>>) -> bool {
    forall|i: int, j: int| 0 <= i < s.len() && 0 <= j < s.len() && i != j ==> s[i].0 != s[j].0
}

/// Whether some slot of `s` has `key`.
pub open spec fn has_key<K>(s: Seq<Slot<K>>, key: K) -> bool {
    exists|i: int| 0 <= i < s.len() && s[i].0 == key
}

/// `s` without the slot of `key`, if it has one.
pub open spec fn without_key<K>(s: Seq<Slot<K>>, key: K) -> Seq<Slot<K>> {
    if has_key(s, key) {
        s.remove(choose|i: int| 0 <= i < s.len() && s[i].0 == key)
    } else {
        s
    }
}

/// `s` after dropping least recently used slots until `need` more bytes fit
/// within `budget`.
pub open spec fn evict<K>(s: Seq<Slot<K>>, need: nat, budget: nat) -> Seq<Slot<K>>
    decreases s.len(),
{
    if s.len() == 0 || total_bytes(s) + need <= budget {
        s
    } else {
        evict(s.drop_first(), need, budget)
    }
}

/// LRU cache of bitmaps with byte accounting.
pub struct ImageCache<K> {
    entries: Vec<Entry<K>>,
    bytes: usize,
    budget: usize,
}

proof fn lemma_total_push<K>(s: Seq<Slot<K>>, e: Slot<K>)
    ensures
        total_bytes(s.push(e)) == total_bytes(s) + e.3.len(),
    decreases s.len(),
{
    if s.len() == 0 {
        assert(s.push(e).drop_first() =~= s);
    } else {
        assert(s.push(e).drop_first() =~= s.drop_first().push(e));
        lemma_total_push(s.drop_first(), e);
    }
}

proof fn lemma_total_remove<K>(s: Seq<Slot<K>>, i: int)
    requires
        0 <= i < s.len(),
    ensures
        total_bytes(s.remove(i)) + s[i].3.len() == total_bytes(s),
    decreases s.len(),
{
    if i == 0 {
        assert(s.remove(0) =~= s.drop_first());
    } else {
        assert(s.remove(i).drop_first() =~= s.drop_first().remove(i - 1));
        lemma_total_remove(s.drop_first(), i - 1);
    }
}

impl<K: CacheKeyed> ImageCache<K> {
    /// The cached bitmaps, least recently used first.
    pub closed spec fn slots(&self) -> Seq<Slot<K>> {
        self.entries@.map_values(|e: Entry<K>| (e.key, e.width, e.height, e.rgba@))
    }

    /// The byte budget the cache was made with.
    pub closed spec fn budget_bytes(&self) -> nat {
        self.budget as nat
    }

    /// The cache's invariant: keys are unique, and the cached bytes fit the
    /// budget.
    pub open spec fn valid(&self) -> bool {
        &&& unique_keys(self.slots())
        &&& total_bytes(self.slots()) <= self.budget_bytes()
        &&& self.counted()
    }

    /// The running byte count matches the bitmaps held.
    pub closed spec fn counted(&self) -> bool {
        self.bytes as nat == total_bytes(self.slots())
    }

    /// An empty cache with a budget of `budget` bytes.
    pub fn new(budget: usize) -> (c: Self)
        ensures
            c.valid(),
            c.slots().len() == 0,
            c.budget_bytes() == budget,
    {
        let c = ImageCache { entries: Vec::new(), bytes: 0, budget };
        assert(c.slots() =~= Seq::<Slot<K>>::empty());
        c
    }

    fn position(&self, key: K) -> (pos: Option<usize>)
        requires
            self.valid(),
        ensures
            match pos {
                Some(i) => i < self.slots().len() && self.slots()[i as int].0 == key,
                None => !has_key(self.slots(), key),
            },
    {
        let mut i: usize = 0;
        while i < self.entries.len()
            invariant
                i <= self.entries@.len(),
                forall|j: int| 0 <= j < i ==> self.slots()[j].0 != key,
            decreases self.entries@.len() - i,
        {
            if self.entries[i].key.same_key(&key) {
                return Some(i);
            }
            i = i + 1;
        }
        None
    }

    /// Whether a bitmap is cached under `key`.
    pub fn contains(&self, key: K) -> (found: bool)
        requires
            self.valid(),
        ensures
            found == has_key(self.slots(), key),
    {
        self.position(key).is_some()
    }

    /// Look up a bitmap and mark it most recently used.
    pub fn get(&mut self, key: K) -> (r: Option<CachedImage<'_>>)
        requires
            old(self).valid(),
        ensures
            final(self).valid(),
            final(self).budget_bytes() == old(self).budget_bytes(),
            !has_key(old(self).slots(), key) ==> r is None && final(self).slots() == old(
                self,
            ).slots(),
            has_key(old(self).slots(), key) ==> exists|i: int|
                0 <= i < old(self).slots().len() && old(self).slots()[i].0 == key
                    && final(self).slots() == old(self).slots().remove(i).push(
                    old(self).slots()[i],
                ) && (r matches Some(img) && img.width == old(self).slots()[i].1 && img.height
                    == old(self).slots()[i].2 && img.rgba@ == old(self).slots()[i].3),
    {
        let pos = match self.position(key) {
            Some(p) => p,
            None => return None,
        };
        let ghost before = self.slots();
        let last: usize = self.entries.len() - 1;
        if pos != last {
            let entry = self.entries.remove(pos);
            self.entries.push(entry);
        }
        proof {
            assert(self.slots() =~= before.remove(pos as int).push(before[pos as int]));
            lemma_total_remove(before, pos as int);
            lemma_total_push(before.remove(pos as int), before[pos as int]);
            assert forall|a: int, b: int|
                0 <= a < self.slots().len() && 0 <= b < self.slots().len() && a != b
                implies self.slots()[a].0 != self.slots()[b].0 by {
                let ia = if a < last { if a < pos { a } else { a + 1 } } else { pos as int };
                let ib = if b < last { if b < pos { b } else { b + 1 } } else { pos as int };
                assert(self.slots()[a] == before[ia]);
                assert(self.slots()[b] == before[ib]);
            }
        }
        let entry = &self.entries[last];
        Some(CachedImage { width: entry.width, height: entry.height, rgba: entry.rgba.as_slice() })
    }

    /// Insert a bitmap, evicting least recently used bitmaps until it fits.
    /// Returns `false`, storing nothing, when the bitmap alone exceeds the
    /// budget. A bitmap already cached under `key` is replaced; the new one
    /// counts as most recently used.
    pub fn insert(&mut self, key: K, width: u32, height: u32, rgba: Vec<u8>) -> (stored: bool)
        requires
            old(self).valid(),
        ensures
            final(self).valid(),
            final(self).budget_bytes() == old(self).budget_bytes(),
            stored == (rgba@.len() <= old(self).budget_bytes()),
            !stored ==> final(self).slots() == old(self).slots(),
            stored ==> final(self).slots() == evict(
                without_key(old(self).slots(), key),
                rgba@.len(),
                old(self).budget_bytes(),
            ).push((key, width, height, rgba@)),
    {
        let need: usize = rgba.len();
        if need > self.budget {
            return false;
        }
        let ghost start = self.slots();
        if let Some(pos) = self.position(key) {
            let old_entry = self.entries.remove(pos);
            proof {
                lemma_total_remove(start, pos as int);
                assert(self.slots() =~= start.remove(pos as int));
            }
            self.bytes = self.bytes - old_entry.rgba.len();
            proof {
                let c = choose|i: int| 0 <= i < start.len() && start[i].0 == key;
                assert(c == pos);
            }
        }
        let ghost kept = self.slots();
        assert(kept == without_key(start, key));
        assert(!has_key(kept, key));
        while self.bytes > self.budget - need
            invariant
                need <= self.budget,
                self.budget == old(self).budget,
                unique_keys(self.slots()),
                self.counted(),
                total_bytes(self.slots()) <= self.budget,
                !has_key(self.slots(), key),
                evict(kept, need as nat, self.budget as nat) == evict(
                    self.slots(),
                    need as nat,
                    self.budget as nat,
                ),
            decreases self.entries@.len(),
        {
            let ghost cur = self.slots();
            assert(cur.len() > 0);
            let gone = self.entries.remove(0);
            assert(self.slots() =~= cur.drop_first());
            self.bytes = self.bytes - gone.rgba.len();
        }
        let ghost fitted = self.slots();
        self.entries.push(Entry { key, width, height, rgba });
        proof {
            assert(self.slots() =~= fitted.push((key, width, height, self.entries@.last().rgba@)));
            lemma_total_push(fitted, (key, width, height, self.entries@.last().rgba@));
        }
        self.bytes = self.bytes + need;
        true
    }

    /// Total cached RGBA bytes.
    pub fn byte_len(&self) -> (n: usize)
        requires
            self.valid(),
        ensures
            n == total_bytes(self.slots()),
    {
        self.bytes
    }

    /// Number of cached bitmaps.
    pub fn len(&self) -> (n: usize)
        ensures
            n == self.slots().len(),
    {
        self.entries.len()
    }

    /// Whether nothing is cached.
    pub fn is_empty(&self) -> (empty: bool)
        ensures
            empty == (self.slots().len() == 0),
    {
        self.entries.len() == 0
    }
}

/// Eviction keeps the most recently used slots: what stays is a suffix of
/// the slots before.
pub proof fn law_evict_keeps_a_suffix<K>(s: Seq<Slot<K>>, need: nat, budget: nat)
    ensures
        evict(s, need, budget).len() <= s.len(),
        evict(s, need, budget) == s.subrange(
            s.len() - evict(s, need, budget).len(),
            s.len() as int,
        ),
    decreases s.len(),
{
    if s.len() == 0 || total_bytes(s) + need <= budget {
        assert(s.subrange(0, s.len() as int) =~= s);
    } else {
        law_evict_keeps_a_suffix(s.drop_first(), need, budget);
        let e = evict(s.drop_first(), need, budget);
        assert(s.drop_first().subrange(s.drop_first().len() - e.len(), s.drop_first().len() as int)
            =~= s.subrange(s.len() - e.len(), s.len() as int));
    }
}

/// After eviction the new bitmap fits: whenever it fits the budget alone, the
/// slots that stay plus `need` bytes are within the budget.
pub proof fn law_evict_makes_room<K>(s: Seq<Slot<K>>, need: nat, budget: nat)
    requires
        need <= budget,
    ensures
        total_bytes(evict(s, need, budget)) + need <= budget,
    decreases s.len(),
{
    if s.len() == 0 || total_bytes(s) + need <= budget {
    } else {
        law_evict_makes_room(s.drop_first(), need, budget);
    }
}

/// A bitmap just stored is cached, and is the most recently used.
pub proof fn law_stored_is_most_recent<K>(s: Seq<Slot<K>>, key: K, width: u32, height: u32, rgba: Seq<u8>, budget: nat)
    ensures
        has_key(evict(without_key(s, key), rgba.len(), budget).push((key, width, height, rgba)), key),
        evict(without_key(s, key), rgba.len(), budget).push((key, width, height, rgba)).last() == (key, width, height, rgba),
{
    let t = evict(without_key(s, key), rgba.len(), budget).push((key, width, height, rgba));
    assert(t[t.len() - 1].0 == key);
}

/// Replacing a cached bitmap by one no larger evicts nothing else: the other
/// slots stay, in their order.
pub proof fn law_replacing_no_larger_evicts_nothing<K>(s: Seq<Slot<K>>, key: K, i: int, need: nat, budget: nat)
    requires
        unique_keys(s),
        total_bytes(s) <= budget,
        0 <= i < s.len(),
        s[i].0 == key,
        need <= s[i].3.len(),
    ensures
        evict(without_key(s, key), need, budget) == s.remove(i),
{
    let c = choose|j: int| 0 <= j < s.len() && s[j].0 == key;
    assert(c == i);
    lemma_total_remove(s, i);
}

} // verus!
