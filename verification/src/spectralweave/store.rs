//! The outside collections that the store is built on.
use crate::spectralweave::key::KeyView;
use crate::spectralweave::plan::PlanEntry;
use vstd::prelude::*;

verus! {

/// A key as the hash map holds it.
pub type RawKey = (u64, String, String);

/// The view of a raw key.
pub open spec fn raw_view(k: RawKey) -> KeyView {
    (k.0, k.1@, k.2@)
}

// ---------------------------------------------------------------------------
// ahash
// ---------------------------------------------------------------------------
/// The hash map type of `ahash`.
#[verifier::external_type_specification]
#[verifier::external_body]
#[verifier::reject_recursive_types(K)]
#[verifier::reject_recursive_types(V)]
#[verifier::reject_recursive_types(S)]
pub struct ExAHashMap<K, V, S>(ahash::AHashMap<K, V, S>);

/// The hash state of `ahash`.
#[verifier::external_type_specification]
#[verifier::external_body]
pub struct ExRandomState(ahash::RandomState);

/// What a map from keys to slots holds.
pub uninterp spec fn slots_of(m: ahash::AHashMap<RawKey, usize>) -> Map<KeyView, usize>;

/// Nothing.
pub open spec fn no_slots() -> Map<KeyView, usize> {
    Map::empty()
}

/// `ahash::AHashMap::new`: an empty map.
#[verifier::external_body]
pub(crate) fn slots_new() -> (m: ahash::AHashMap<RawKey, usize>)
    ensures
        slots_of(m) == no_slots(),
{
    ahash::AHashMap::new()
}

/// `ahash::AHashMap::get`: the slot under an equal key, if there is one.
#[verifier::external_body]
pub(crate) fn slots_get(m: &ahash::AHashMap<RawKey, usize>, k: &RawKey) -> (r: Option<usize>)
    ensures
        r == if slots_of(*m).dom().contains(raw_view(*k)) {
            Some(slots_of(*m)[raw_view(*k)])
        } else {
            None
        },
{
    m.get(k).copied()
}

/// `ahash::AHashMap::insert`: the key leads to the slot, all others stay.
#[verifier::external_body]
pub(crate) fn slots_insert(m: &mut ahash::AHashMap<RawKey, usize>, k: RawKey, slot: usize)
    ensures
        slots_of(*final(m)) == slots_of(*old(m)).insert(raw_view(k), slot),
{
    m.insert(k, slot);
}

/// `ahash::AHashMap::remove`: the key is gone, all others stay.
#[verifier::external_body]
pub(crate) fn slots_remove(m: &mut ahash::AHashMap<RawKey, usize>, k: &RawKey)
    ensures
        slots_of(*final(m)) == slots_of(*old(m)).remove(raw_view(*k)),
{
    m.remove(k);
}

/// `std::collections::HashMap::len`, which `ahash::AHashMap` derefs to: the
/// number of keys.
#[verifier::external_body]
pub(crate) fn slots_len(m: &ahash::AHashMap<RawKey, usize>) -> (r: usize)
    ensures
        r == slots_of(*m).dom().len(),
{
    m.len()
}

/// `std::collections::HashMap::keys`, which `ahash::AHashMap` derefs to: every
/// key once, in an order that is left open.
#[verifier::external_body]
pub(crate) fn slots_keys(m: &ahash::AHashMap<RawKey, usize>) -> (r: Vec<RawKey>)
    ensures
        r@.map_values(|k: RawKey| raw_view(k)).no_duplicates(),
        r@.map_values(|k: RawKey| raw_view(k)).to_set() == slots_of(*m).dom(),
{
    m.keys().cloned().collect()
}

/// What a map from numbers to slots holds.
pub uninterp spec fn places_of(m: ahash::AHashMap<u128, usize>) -> Map<u128, usize>;

/// Nothing.
pub open spec fn no_places() -> Map<u128, usize> {
    Map::empty()
}

/// `ahash::AHashMap::new`: an empty map.
#[verifier::external_body]
pub(crate) fn places_new() -> (m: ahash::AHashMap<u128, usize>)
    ensures
        places_of(m) == no_places(),
{
    ahash::AHashMap::new()
}

/// `ahash::AHashMap::get`: the slot under the number, if there is one.
#[verifier::external_body]
pub(crate) fn places_get(m: &ahash::AHashMap<u128, usize>, k: u128) -> (r: Option<usize>)
    ensures
        r == if places_of(*m).dom().contains(k) {
            Some(places_of(*m)[k])
        } else {
            None
        },
{
    m.get(&k).copied()
}

/// `ahash::AHashMap::insert`: the number leads to the slot, all others stay.
#[verifier::external_body]
pub(crate) fn places_insert(m: &mut ahash::AHashMap<u128, usize>, k: u128, slot: usize)
    ensures
        places_of(*final(m)) == places_of(*old(m)).insert(k, slot),
{
    m.insert(k, slot);
}

// ---------------------------------------------------------------------------
// smallvec
// ---------------------------------------------------------------------------
/// The frames of one key, held inline for up to two.
#[verifier::external_body]
pub struct FrameList {
    inner: smallvec::SmallVec<[usize; 2]>,
}

/// The frames in a list, in order.
pub uninterp spec fn listed(l: FrameList) -> Seq<usize>;

/// `smallvec::SmallVec::new`: an empty list.
#[verifier::external_body]
pub(crate) fn list_new() -> (l: FrameList)
    ensures
        listed(l) == Seq::<usize>::empty(),
{
    FrameList { inner: smallvec::SmallVec::new() }
}

/// `smallvec::SmallVec::push`: the frame goes to the end.
#[verifier::external_body]
pub(crate) fn list_push(l: &mut FrameList, frame: usize)
    ensures
        listed(*final(l)) == listed(*old(l)).push(frame),
{
    l.inner.push(frame);
}

/// `smallvec::SmallVec::to_vec` of the slice that the list derefs to: the
/// frames in order.
#[verifier::external_body]
pub(crate) fn list_items(l: &FrameList) -> (r: Vec<usize>)
    ensures
        r@ == listed(*l),
{
    l.inner.to_vec()
}

// ---------------------------------------------------------------------------
// lru
// ---------------------------------------------------------------------------
/// The cache type of `lru`.
#[verifier::external_type_specification]
#[verifier::external_body]
#[verifier::reject_recursive_types(K)]
#[verifier::reject_recursive_types(V)]
#[verifier::reject_recursive_types(S)]
pub struct ExLruCache<K, V, S>(lru::LruCache<K, V, S>);

/// The hash state of `lru`.
#[verifier::external_type_specification]
#[verifier::external_body]
pub struct ExLruHasher(lru::DefaultHasher);

/// What a cache holds, the most recently used first.
pub uninterp spec fn cached(c: lru::LruCache<u128, PlanEntry>) -> Seq<(u128, PlanEntry)>;

/// How much a cache was made to hold.
pub uninterp spec fn cache_limit(c: lru::LruCache<u128, PlanEntry>) -> nat;

/// Entry `i` comes to the front.
pub open spec fn fronted(s: Seq<(u128, PlanEntry)>, i: int) -> Seq<(u128, PlanEntry)> {
    seq![s[i]] + s.remove(i)
}

/// Where a number stands in a cache; at the length if it is not there.
pub open spec fn position(s: Seq<(u128, PlanEntry)>, k: u128) -> int
    decreases s.len(),
{
    if s.len() == 0 {
        0
    } else if s[0].0 == k {
        0
    } else {
        1 + position(s.skip(1), k)
    }
}

/// The largest cache whose table can be laid out in memory: a table has eight
/// slots for seven entries, rounded up to a power of two, with two pointers and
/// one byte for each slot.
pub const CACHE_CAP: usize = usize::MAX / 512 * 7 + 7;

/// `lru::LruCache::new` on a size that is not zero: an empty cache of that
/// size. The storage for all entries is allocated at once; the call panics on
/// a size whose storage is larger than the address space.
#[verifier::external_body]
pub(crate) fn cache_new(size: usize) -> (c: lru::LruCache<u128, PlanEntry>)
    requires
        0 < size <= CACHE_CAP,
    ensures
        cached(c) == Seq::<(u128, PlanEntry)>::empty(),
        cache_limit(c) == size,
{
    lru::LruCache::new(std::num::NonZeroUsize::new(size).unwrap())
}

/// `lru::LruCache::get`: the entry under the number, which becomes the most
/// recently used one.
#[verifier::external_body]
pub(crate) fn cache_get<'a>(c: &'a mut lru::LruCache<u128, PlanEntry>, k: u128) -> (r: Option<
    &'a PlanEntry,
>)
    ensures
        cache_limit(*final(c)) == cache_limit(*old(c)),
        match r {
            Some(e) => {
                let i = position(cached(*old(c)), k);
                &&& i < cached(*old(c)).len()
                &&& *e == cached(*old(c))[i].1
                &&& cached(*final(c)) == fronted(cached(*old(c)), i)
            },
            None => {
                &&& position(cached(*old(c)), k) == cached(*old(c)).len()
                &&& cached(*final(c)) == cached(*old(c))
            },
        },
{
    c.get(&k)
}

/// `lru::LruCache::pop`: the entry under the number is gone, the others keep
/// their order.
#[verifier::external_body]
pub(crate) fn cache_pop(c: &mut lru::LruCache<u128, PlanEntry>, k: u128)
    ensures
        cache_limit(*final(c)) == cache_limit(*old(c)),
        cached(*final(c)) == if position(cached(*old(c)), k) < cached(*old(c)).len() {
            cached(*old(c)).remove(position(cached(*old(c)), k))
        } else {
            cached(*old(c))
        },
{
    c.pop(&k);
}

/// `lru::LruCache::put`: the entry comes to the front under its number,
/// replaces the one that was there, and otherwise pushes the least recently
/// used one out of a full cache.
#[verifier::external_body]
pub(crate) fn cache_put(c: &mut lru::LruCache<u128, PlanEntry>, k: u128, e: PlanEntry)
    ensures
        cache_limit(*final(c)) == cache_limit(*old(c)),
        cached(*final(c)) == {
            let s = cached(*old(c));
            let i = position(s, k);
            if i < s.len() {
                seq![(k, e)] + s.remove(i)
            } else if s.len() == cache_limit(*old(c)) {
                seq![(k, e)] + s.drop_last()
            } else {
                seq![(k, e)] + s
            }
        },
{
    c.put(k, e);
}

/// `lru::LruCache::clear`: nothing is left.
#[verifier::external_body]
pub(crate) fn cache_clear(c: &mut lru::LruCache<u128, PlanEntry>)
    ensures
        cache_limit(*final(c)) == cache_limit(*old(c)),
        cached(*final(c)) == Seq::<(u128, PlanEntry)>::empty(),
{
    c.clear();
}

} // verus!
