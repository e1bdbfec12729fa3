//! A small LRU cache of decoded tiles, plus the diagnostic counters.
//!
//! Tiles are keyed by the byte offset of their stored data in the file, not by
//! grid position: the raster is sparse, and grid positions that share stored
//! data share one cache entry.

use vstd::prelude::*;

use std::collections::HashMap;

use crate::tiff::{HeaderView, TileOffset, TILE_PIXELS};
use crate::tile::decoded_tile;
use crate::Metrics;
use vstd::std_specs::iter::IteratorSpec;

verus! {

broadcast use vstd::std_specs::hash::group_hash_axioms;

/// One decoded tile held by the cache.
struct CacheEntry {
    /// The tile's samples, as raw bits.
    samples: Vec<u32>,
    /// Value of the cache's clock at the most recent access; the smallest is
    /// the least recently used.
    used: u64,
}

/// A key of `entries` whose entry was used least recently.
spec fn is_least_recent(entries: Map<u64, CacheEntry>, k: u64) -> bool {
    &&& entries.contains_key(k)
    &&& forall|j: u64| #[trigger] entries.contains_key(j) ==> entries[k].used <= entries[j].used
}

/// Finds the entry used least recently, if there is any.
fn least_recently_used(entries: &HashMap<u64, CacheEntry>) -> (r: Option<u64>)
    ensures
        r is None <==> entries@.dom().len() == 0,
        r matches Some(k) ==> is_least_recent(entries@, k),
{
    let mut best: Option<(u64, u64)> = None;
    for (k, e) in it: entries.iter()
        invariant
            it.seq() == vstd::std_specs::hash::spec_hash_map_iter(entries).remaining(),
            best is None <==> it.index() == 0,
            best matches Some(p) ==> {
                &&& entries@.contains_key(p.0)
                &&& entries@[p.0].used == p.1
                &&& forall|j: int| 0 <= j < it.index() ==> p.1 <= (#[trigger] it.seq()[j]).1.used
            },
    {
        match best {
            None => {
                best = Some((*k, e.used));
            },
            Some((_, u)) => {
                if e.used < u {
                    best = Some((*k, e.used));
                }
            },
        }
    }
    match best {
        Some((k, _)) => Some(k),
        None => None,
    }
}


/// The duration of `nanos` nanoseconds, as `std::time::Duration::from_nanos`
/// builds it.
pub uninterp spec fn nanos_duration(nanos: u64) -> std::time::Duration;

/// A duration of `nanos` nanoseconds.
///
/// Calls `std::time::Duration::from_nanos`, whose result depends on `nanos`
/// alone; the contract names it `nanos_duration(nanos)` and claims nothing
/// else of it.
#[verifier::external_body]
fn duration_from_nanos(nanos: u64) -> (r: std::time::Duration)
    ensures
        r == nanos_duration(nanos),
{
    std::time::Duration::from_nanos(nanos)
}

/// The diagnostic counters, updated together.
#[derive(Clone, Copy)]
struct Counters {
    queries: u64,
    out_of_range: u64,
    hits: u64,
    misses: u64,
    tiles_decoded: u64,
    evictions: u64,
    decode_nanos: u64,
}

/// The abstract state of a cache.
#[verifier::ext_equal]
pub struct CacheView {
    /// Most tiles the cache holds at once.
    pub capacity: usize,
    /// The decoded tiles held, by the byte offset of their stored data.
    pub tiles: Map<u64, Seq<u32>>,
    /// For each held tile, the clock value of its most recent access.
    pub last_used: Map<u64, u64>,
    /// The access clock.
    pub tick: u64,
    /// Queries recorded, in or out of range.
    pub queries: u64,
    /// Queries whose coordinates fell outside the covered area.
    pub out_of_range: u64,
    /// Lookups served from the cache.
    pub hits: u64,
    /// Lookups that found no cached tile.
    pub misses: u64,
    /// Tiles handed to `insert`.
    pub tiles_decoded: u64,
    /// Tiles dropped to make room.
    pub evictions: u64,
    /// Cumulative decode time in nanoseconds, saturating.
    pub decode_nanos: u64,
}

impl CacheView {
    /// The state of a fresh cache holding at most `capacity` tiles.
    pub open spec fn empty(capacity: usize) -> CacheView {
        CacheView {
            capacity,
            tiles: Map::empty(),
            last_used: Map::empty(),
            tick: 0,
            queries: 0,
            out_of_range: 0,
            hits: 0,
            misses: 0,
            tiles_decoded: 0,
            evictions: 0,
            decode_nanos: 0,
        }
    }

    /// What every reachable cache state satisfies.
    pub open spec fn consistent(self) -> bool {
        &&& self.tiles.dom().finite()
        &&& self.tiles.dom() == self.last_used.dom()
        &&& self.tiles.len() <= self.capacity
        &&& forall|k: u64| #[trigger]
            self.last_used.contains_key(k) ==> 1 <= self.last_used[k] <= self.tick
        &&& forall|k: u64, j: u64|
            #![trigger self.last_used[k], self.last_used[j]]
            self.last_used.contains_key(k) && self.last_used.contains_key(j) && k != j
                ==> self.last_used[k] != self.last_used[j]
        &&& self.queries == self.out_of_range + self.hits + self.misses
        &&& self.evictions <= self.tiles_decoded
    }

    /// No counter that the next operation advances is at its maximum.
    pub open spec fn has_headroom(self) -> bool {
        &&& self.queries < u64::MAX
        &&& self.tiles_decoded < u64::MAX
        &&& self.tick < u64::MAX
    }

    /// A held tile used least recently.
    pub open spec fn is_lru(self, k: u64) -> bool {
        &&& self.last_used.contains_key(k)
        &&& forall|j: u64| #[trigger]
            self.last_used.contains_key(j) ==> self.last_used[k] <= self.last_used[j]
    }

    /// The tile that an insertion into a full cache evicts.
    pub open spec fn lru(self) -> u64 {
        choose|k: u64| self.is_lru(k)
    }

    /// The state after a query whose coordinates fell outside the covered
    /// area.
    pub open spec fn after_out_of_range(self) -> CacheView {
        CacheView {
            queries: (self.queries + 1) as u64,
            out_of_range: (self.out_of_range + 1) as u64,
            ..self
        }
    }

    /// The sample that a lookup of pixel `pixel` of the tile stored at
    /// `offset` finds.
    pub open spec fn lookup_result(self, offset: u64, pixel: usize) -> Option<u32> {
        if self.tiles.contains_key(offset) && pixel < self.tiles[offset].len() {
            Some(self.tiles[offset][pixel as int])
        } else {
            None
        }
    }

    /// The state after a lookup of the tile stored at `offset`.
    pub open spec fn after_lookup(self, offset: u64) -> CacheView {
        if self.tiles.contains_key(offset) {
            CacheView {
                tick: (self.tick + 1) as u64,
                last_used: self.last_used.insert(offset, (self.tick + 1) as u64),
                queries: (self.queries + 1) as u64,
                hits: (self.hits + 1) as u64,
                ..self
            }
        } else {
            CacheView {
                queries: (self.queries + 1) as u64,
                misses: (self.misses + 1) as u64,
                ..self
            }
        }
    }

    /// Whether inserting the tile stored at `offset` evicts another one.
    pub open spec fn insert_evicts(self, offset: u64) -> bool {
        self.capacity > 0 && !self.tiles.contains_key(offset) && self.tiles.len()
            >= self.capacity
    }

    /// The state after inserting `samples`, decoded in `nanos` nanoseconds,
    /// as the tile stored at `offset`.
    pub open spec fn after_insert(self, offset: u64, samples: Seq<u32>, nanos: u128) -> CacheView {
        let decode_nanos = if self.decode_nanos + clamp_nanos(nanos) > u64::MAX {
            u64::MAX
        } else {
            (self.decode_nanos + clamp_nanos(nanos)) as u64
        };
        let counted = CacheView {
            tiles_decoded: (self.tiles_decoded + 1) as u64,
            decode_nanos,
            ..self
        };
        if self.capacity == 0 {
            counted
        } else {
            let room = if self.insert_evicts(offset) {
                let victim = self.lru();
                CacheView {
                    tiles: counted.tiles.remove(victim),
                    last_used: counted.last_used.remove(victim),
                    evictions: (counted.evictions + 1) as u64,
                    ..counted
                }
            } else {
                counted
            };
            CacheView {
                tick: (room.tick + 1) as u64,
                tiles: room.tiles.insert(offset, samples),
                last_used: room.last_used.insert(offset, (room.tick + 1) as u64),
                ..room
            }
        }
    }
}

/// A duration in nanoseconds as a `u64`, saturating.
pub open spec fn clamp_nanos(nanos: u128) -> u64 {
    if nanos > u64::MAX {
        u64::MAX
    } else {
        nanos as u64
    }
}

/// A bounded LRU cache of decoded tiles, keyed by the byte offset of the
/// tile's stored data, together with the query counters.
pub struct Cache {
    capacity: usize,
    tick: u64,
    entries: HashMap<u64, CacheEntry>,
    counters: Counters,
}

impl View for Cache {
    type V = CacheView;

    closed spec fn view(&self) -> CacheView {
        CacheView {
            capacity: self.capacity,
            tiles: self.entries@.map_values(|e: CacheEntry| e.samples@),
            last_used: self.entries@.map_values(|e: CacheEntry| e.used),
            tick: self.tick,
            queries: self.counters.queries,
            out_of_range: self.counters.out_of_range,
            hits: self.counters.hits,
            misses: self.counters.misses,
            tiles_decoded: self.counters.tiles_decoded,
            evictions: self.counters.evictions,
            decode_nanos: self.counters.decode_nanos,
        }
    }
}

impl Cache {
    #[verifier::type_invariant]
    closed spec fn well_formed(self) -> bool {
        self@.consistent()
    }

    /// An empty cache that holds at most `capacity` tiles; a capacity of `0`
    /// disables caching.
    pub fn new(capacity: usize) -> (c: Cache)
        ensures
            c@ == CacheView::empty(capacity),
            c@.consistent(),
            c@.capacity == capacity,
            c@.tiles.len() == 0,
            c@.queries == 0 && c@.out_of_range == 0 && c@.hits == 0 && c@.misses == 0,
            c@.tiles_decoded == 0 && c@.evictions == 0 && c@.decode_nanos == 0,
    {
        let entries: HashMap<u64, CacheEntry> = HashMap::new();
        assert(entries@.map_values(|e: CacheEntry| e.samples@) =~= Map::empty());
        assert(entries@.map_values(|e: CacheEntry| e.used) =~= Map::empty());
        let c = Cache {
            capacity,
            tick: 0,
            entries,
            counters: Counters {
                queries: 0,
                out_of_range: 0,
                hits: 0,
                misses: 0,
                tiles_decoded: 0,
                evictions: 0,
                decode_nanos: 0,
            },
        };
        assert(c@.tiles =~= Map::empty());
        assert(c@.last_used =~= Map::empty());
        c
    }

    /// Whether no counter is at its maximum, so that any operation may follow.
    pub fn has_headroom(&self) -> (r: bool)
        ensures
            r == self@.has_headroom(),
    {
        self.counters.queries < u64::MAX && self.counters.tiles_decoded < u64::MAX && self.tick
            < u64::MAX
    }

    /// Records a query whose coordinates fell outside the covered area.
    pub fn record_out_of_range(&mut self)
        requires
            old(self)@.queries < u64::MAX,
        ensures
            final(self)@ == old(self)@.after_out_of_range(),
            final(self)@.consistent(),
    {
        proof {
            use_type_invariant(&*self);
        }
        let c = self.counters;
        self.counters = Counters { queries: c.queries + 1, out_of_range: c.out_of_range + 1, ..c };
        proof {
            use_type_invariant(&*self);
        }
    }

    /// A snapshot of the counters and gauges.
    pub fn metrics(&self) -> (m: Metrics)
        ensures
            m.queries == self@.queries,
            m.out_of_range == self@.out_of_range,
            m.tile_cache_hits == self@.hits,
            m.tile_cache_misses == self@.misses,
            m.tiles_decoded == self@.tiles_decoded,
            m.tile_cache_evictions == self@.evictions,
            m.tiles_cached == self@.tiles.len(),
            m.tile_cache_capacity == self@.capacity,
            m.decode_time == nanos_duration(self@.decode_nanos),
    {
        proof {
            assert(self@.tiles.dom() =~= self.entries@.dom());
        }
        Metrics {
            queries: self.counters.queries,
            out_of_range: self.counters.out_of_range,
            tile_cache_hits: self.counters.hits,
            tile_cache_misses: self.counters.misses,
            tiles_decoded: self.counters.tiles_decoded,
            tile_cache_evictions: self.counters.evictions,
            tiles_cached: self.entries.len(),
            tile_cache_capacity: self.capacity,
            decode_time: duration_from_nanos(self.counters.decode_nanos),
        }
    }

    /// Moves the tiles out, leaving the cache momentarily empty.
    fn take_entries(&mut self) -> (entries: HashMap<u64, CacheEntry>)
        ensures
            entries@ == old(self).entries@,
            final(self).entries@ == Map::<u64, CacheEntry>::empty(),
            final(self).capacity == old(self).capacity,
            final(self).tick == old(self).tick,
            final(self).counters == old(self).counters,
    {
        proof {
            use_type_invariant(&*self);
        }
        let mut entries: HashMap<u64, CacheEntry> = HashMap::new();
        assert(entries@.map_values(|e: CacheEntry| e.samples@) =~= Map::empty());
        assert(entries@.map_values(|e: CacheEntry| e.used) =~= Map::empty());
        std::mem::swap(&mut entries, &mut self.entries);
        entries
    }

    /// Records a query and returns sample `pixel` of the tile stored at `off`
    /// if that tile is cached, marking it most recently used.
    pub fn lookup(&mut self, off: TileOffset, pixel: usize) -> (r: Option<u32>)
        requires
            old(self)@.queries < u64::MAX,
            old(self)@.tick < u64::MAX,
        ensures
            r == old(self)@.lookup_result(off.0, pixel),
            final(self)@ == old(self)@.after_lookup(off.0),
            final(self)@.consistent(),
    {
        proof {
            use_type_invariant(&*self);
        }
        let ghost before = self@;
        let ghost old_entries = self.entries@;
        let mut entries = self.take_entries();
        let c = self.counters;
        let mut tick = self.tick;
        let counters;
        let r = match entries.remove(&off.0) {
            Some(mut entry) => {
                tick = tick + 1;
                entry.used = tick;
                let value = if pixel < entry.samples.len() {
                    Some(entry.samples[pixel])
                } else {
                    None
                };
                entries.insert(off.0, entry);
                counters = Counters { queries: c.queries + 1, hits: c.hits + 1, ..c };
                proof {
                    assert(entries@ == old_entries.insert(off.0, entry));
                    assert(entries@.map_values(|e: CacheEntry| e.samples@) =~= before.tiles);
                    assert(entries@.map_values(|e: CacheEntry| e.used) =~= before.last_used.insert(
                        off.0,
                        tick,
                    ));
                }
                value
            },
            None => {
                counters = Counters { queries: c.queries + 1, misses: c.misses + 1, ..c };
                proof {
                    assert(entries@ == old_entries);
                }
                None
            },
        };
        *self = Cache { capacity: self.capacity, tick, entries, counters };
        proof {
            assert(self@ =~= before.after_lookup(off.0));
            use_type_invariant(&*self);
        }
        r
    }

    /// Inserts a freshly decoded tile stored at `off`, decoded in
    /// `decode_nanos` nanoseconds, evicting the least recently used tile if
    /// the cache is full. With a capacity of `0` only the counters change.
    pub fn insert(&mut self, off: TileOffset, samples: Vec<u32>, decode_nanos: u128)
        requires
            old(self)@.tiles_decoded < u64::MAX,
            old(self)@.tick < u64::MAX,
        ensures
            final(self)@ == old(self)@.after_insert(off.0, samples@, decode_nanos),
            final(self)@.consistent(),
    {
        proof {
            use_type_invariant(&*self);
        }
        let ghost before = self@;
        let ghost new_samples = samples@;
        let c = self.counters;
        let nanos: u64 = if decode_nanos > u64::MAX as u128 {
            u64::MAX
        } else {
            decode_nanos as u64
        };
        let mut counters = Counters {
            tiles_decoded: c.tiles_decoded + 1,
            decode_nanos: c.decode_nanos.saturating_add(nanos),
            ..c
        };
        if self.capacity == 0 {
            self.counters = counters;
            proof {
                assert(self@ =~= before.after_insert(off.0, new_samples, decode_nanos));
                use_type_invariant(&*self);
            }
            return;
        }
        let ghost old_entries = self.entries@;
        let mut entries = self.take_entries();
        let ghost mut evicted = false;
        let ghost mut victim_key: u64 = 0;
        if !entries.contains_key(&off.0) && entries.len() >= self.capacity {
            if let Some(victim) = least_recently_used(&entries) {
                proof {
                    assert(before.is_lru(victim));
                    lemma_lru_unique(before, victim);
                    evicted = true;
                    victim_key = victim;
                }
                entries.remove(&victim);
                counters = Counters { evictions: counters.evictions + 1, ..counters };
            }
        }
        let ghost room = entries@;
        proof {
            assert(old_entries.dom() =~= before.tiles.dom());
            assert(evicted == before.insert_evicts(off.0));
            if evicted {
                assert(room == old_entries.remove(victim_key));
                assert(room.map_values(|e: CacheEntry| e.samples@) =~= before.tiles.remove(
                    victim_key,
                ));
                assert(room.map_values(|e: CacheEntry| e.used) =~= before.last_used.remove(
                    victim_key,
                ));
                assert(room.dom() =~= before.tiles.dom().remove(victim_key));
            } else {
                assert(room == old_entries);
                assert(room.map_values(|e: CacheEntry| e.samples@) =~= before.tiles);
                assert(room.map_values(|e: CacheEntry| e.used) =~= before.last_used);
            }
        }
        let tick = self.tick + 1;
        entries.insert(off.0, CacheEntry { samples, used: tick });
        proof {
            assert(entries@.map_values(|e: CacheEntry| e.samples@) =~= room.map_values(
                |e: CacheEntry| e.samples@,
            ).insert(off.0, new_samples));
            assert(entries@.map_values(|e: CacheEntry| e.used) =~= room.map_values(
                |e: CacheEntry| e.used,
            ).insert(off.0, tick));
            assert(entries@.dom() =~= room.dom().insert(off.0));
            if room.dom().contains(off.0) {
                assert(entries@.dom() =~= room.dom());
            }
        }
        *self = Cache { capacity: self.capacity, tick, entries, counters };
        proof {
            assert(self@ =~= before.after_insert(off.0, new_samples, decode_nanos));
            use_type_invariant(&*self);
        }
    }
}

/// In a consistent cache state, the least recently used tile is the one an
/// eviction picks.
proof fn lemma_lru_unique(v: CacheView, k: u64)
    requires
        v.consistent(),
        v.is_lru(k),
    ensures
        v.lru() == k,
{
    let c = v.lru();
    assert(v.is_lru(c));
    assert(v.last_used[c] <= v.last_used[k]);
    assert(v.last_used[k] <= v.last_used[c]);
}

// ---------------------------------------------------------------------------
// Laws
// ---------------------------------------------------------------------------

/// A lookup right after inserting a tile finds that tile's samples, unless
/// caching is disabled.
pub proof fn law_lookup_after_insert(
    v: CacheView,
    offset: u64,
    samples: Seq<u32>,
    nanos: u128,
    pixel: usize,
)
    requires
        v.consistent(),
        v.has_headroom(),
        v.capacity > 0,
    ensures
        v.after_insert(offset, samples, nanos).lookup_result(offset, pixel) == if pixel
            < samples.len() {
            Some(samples[pixel as int])
        } else {
            None::<u32>
        },
        v.after_insert(offset, samples, nanos).after_lookup(offset).hits == v.hits + 1,
{
}

/// With a capacity of `0` the cache never holds a tile: inserting changes
/// only the counters, and every lookup misses.
pub proof fn law_disabled_cache_never_stores(
    v: CacheView,
    offset: u64,
    samples: Seq<u32>,
    nanos: u128,
)
    requires
        v.consistent(),
        v.has_headroom(),
        v.capacity == 0,
    ensures
        v.tiles.len() == 0,
        v.after_insert(offset, samples, nanos).tiles == v.tiles,
        v.after_insert(offset, samples, nanos).tiles_decoded == v.tiles_decoded + 1,
        v.after_lookup(offset).misses == v.misses + 1,
        v.after_lookup(offset).hits == v.hits,
{
    assert(v.tiles.dom().len() == 0);
    assert(v.tiles.dom() =~= Set::empty());
}

/// Grid positions that share stored data share one cache entry: inserting a
/// tile whose offset is already held replaces it in place, so the number of
/// held tiles stays the same and nothing is evicted.
pub proof fn law_same_offset_shares_entry(
    v: CacheView,
    offset: u64,
    samples: Seq<u32>,
    nanos: u128,
)
    requires
        v.consistent(),
        v.tiles.contains_key(offset),
    ensures
        v.after_insert(offset, samples, nanos).tiles.len() == v.tiles.len(),
        v.after_insert(offset, samples, nanos).evictions == v.evictions,
{
    assert(v.after_insert(offset, samples, nanos).tiles.dom() =~= v.tiles.dom());
}

/// The tile looked up most recently is never the one a full cache evicts
/// while it holds another tile.
pub proof fn law_recently_used_tile_survives(v: CacheView, offset: u64, other: u64)
    requires
        v.consistent(),
        v.tiles.contains_key(offset),
        v.tiles.contains_key(other),
        other != offset,
        v.tick < u64::MAX,
    ensures
        v.after_lookup(offset).lru() != offset,
{
    let w = v.after_lookup(offset);
    assert(w.last_used.contains_key(other));
    assert(w.last_used[other] < w.last_used[offset]);
    if w.lru() == offset {
        let k = w.lru();
        assert(exists|j: u64| w.is_lru(j)) by {
            lemma_some_lru(w);
        }
        assert(w.is_lru(k));
        assert(w.last_used[k] <= w.last_used[other]);
    }
}

/// Every counter of `w` is at least the same counter of `v`.
pub open spec fn counters_not_below(v: CacheView, w: CacheView) -> bool {
    &&& v.queries <= w.queries
    &&& v.out_of_range <= w.out_of_range
    &&& v.hits <= w.hits
    &&& v.misses <= w.misses
    &&& v.tiles_decoded <= w.tiles_decoded
    &&& v.evictions <= w.evictions
    &&& v.decode_nanos <= w.decode_nanos
}

/// The counters only ever go up: every operation leaves each of them at least
/// where it was, and each query adds exactly one to `queries`.
pub proof fn law_counters_never_decrease(
    v: CacheView,
    offset: u64,
    samples: Seq<u32>,
    nanos: u128,
)
    requires
        v.consistent(),
        v.has_headroom(),
    ensures
        counters_not_below(v, v.after_out_of_range()),
        counters_not_below(v, v.after_lookup(offset)),
        counters_not_below(v, v.after_insert(offset, samples, nanos)),
        v.after_out_of_range().queries == v.queries + 1,
        v.after_lookup(offset).queries == v.queries + 1,
        v.after_insert(offset, samples, nanos).queries == v.queries,
{
}

// ---------------------------------------------------------------------------
// Cached answers are decoded answers
// ---------------------------------------------------------------------------

/// The stored data of grid tile `i` of the file `s` whose header is `h`.
pub open spec fn stored_tile(s: Seq<u8>, h: HeaderView, i: int) -> Seq<u8> {
    s.subrange(h.tile_offset(s, i), h.tile_offset(s, i) + h.tile_byte_count(s, i))
}

/// Grid tiles of `s` that share a stored offset share its length too, so an
/// offset names one stored tile.
pub open spec fn offsets_determine_extents(s: Seq<u8>, h: HeaderView) -> bool {
    forall|i: int, j: int|
        #![trigger h.tile_offset(s, i), h.tile_offset(s, j)]
        0 <= i < h.grid() && 0 <= j < h.grid() && h.tile_offset(s, i) == h.tile_offset(s, j)
            ==> h.tile_byte_count(s, i) == h.tile_byte_count(s, j)
}

/// Every tile the cache holds for an offset of `s` is what decoding the data
/// stored there gives.
pub open spec fn faithful_to(v: CacheView, s: Seq<u8>, h: HeaderView) -> bool {
    forall|i: int|
        #![trigger h.tile_offset(s, i)]
        0 <= i < h.grid() && v.tiles.contains_key(h.tile_offset(s, i) as u64) ==> decoded_tile(
            h.compression,
            stored_tile(s, h, i),
        ) == Some(v.tiles[h.tile_offset(s, i) as u64])
}

/// A fresh cache holds nothing, so it is faithful to any file.
pub proof fn law_empty_cache_is_faithful(capacity: usize, s: Seq<u8>, h: HeaderView)
    ensures
        faithful_to(CacheView::empty(capacity), s, h),
{
}

/// Lookups and out-of-range queries never change which tiles are held.
pub proof fn law_queries_keep_faithful(v: CacheView, s: Seq<u8>, h: HeaderView, offset: u64)
    requires
        faithful_to(v, s, h),
    ensures
        faithful_to(v.after_lookup(offset), s, h),
        faithful_to(v.after_out_of_range(), s, h),
{
}

/// Inserting the decoded data of grid tile `j` under its offset keeps every
/// held tile equal to its decoded data, whatever it evicts.
pub proof fn law_insert_keeps_faithful(
    v: CacheView,
    s: Seq<u8>,
    h: HeaderView,
    j: int,
    samples: Seq<u32>,
    nanos: u128,
)
    requires
        v.consistent(),
        faithful_to(v, s, h),
        offsets_determine_extents(s, h),
        0 <= j < h.grid(),
        decoded_tile(h.compression, stored_tile(s, h, j)) == Some(samples),
    ensures
        faithful_to(v.after_insert(h.tile_offset(s, j) as u64, samples, nanos), s, h),
{
    let off = h.tile_offset(s, j) as u64;
    let w = v.after_insert(off, samples, nanos);
    assert forall|i: int|
        #![trigger h.tile_offset(s, i)]
        0 <= i < h.grid() && w.tiles.contains_key(h.tile_offset(s, i) as u64) implies decoded_tile(
        h.compression,
        stored_tile(s, h, i),
    ) == Some(w.tiles[h.tile_offset(s, i) as u64]) by {
        if v.capacity > 0 && h.tile_offset(s, i) as u64 == off {
            assert(h.tile_offset(s, i) == h.tile_offset(s, j)) by {
                h.tile_offsets.lemma_value_fits(s, i);
                h.tile_offsets.lemma_value_fits(s, j);
            }
            assert(stored_tile(s, h, i) == stored_tile(s, h, j));
        }
    }
}

/// A cache that is faithful to the file answers a query for pixel `pixel` of
/// grid tile `i` exactly as decoding the tile's stored data does: a hit
/// returns the decoded sample, and a miss leaves the answer to decoding.
pub proof fn law_hit_answers_like_decoding(
    v: CacheView,
    s: Seq<u8>,
    h: HeaderView,
    i: int,
    pixel: usize,
)
    requires
        faithful_to(v, s, h),
        0 <= i < h.grid(),
        pixel < TILE_PIXELS,
        v.tiles.contains_key(h.tile_offset(s, i) as u64),
    ensures
        decoded_tile(h.compression, stored_tile(s, h, i)) is Some,
        v.lookup_result(h.tile_offset(s, i) as u64, pixel) == Some(
            decoded_tile(h.compression, stored_tile(s, h, i))->0[pixel as int],
        ),
{
}

/// A lookup of a held tile returns the requested sample (none past the
/// tile's end), counts one hit and makes that tile the most recently used; a
/// lookup of a tile not held returns nothing and counts one miss. Neither
/// changes which tiles are held, nor does an out-of-range query.
pub proof fn law_lookup_reads_without_changing_tiles(v: CacheView, offset: u64, pixel: usize)
    requires
        v.consistent(),
        v.has_headroom(),
    ensures
        v.after_lookup(offset).tiles == v.tiles,
        v.after_lookup(offset).capacity == v.capacity,
        v.after_lookup(offset).queries == v.queries + 1,
        v.after_out_of_range().tiles == v.tiles,
        v.after_out_of_range().queries == v.queries + 1,
        v.after_out_of_range().out_of_range == v.out_of_range + 1,
        v.tiles.contains_key(offset) ==> {
            &&& v.after_lookup(offset).hits == v.hits + 1
            &&& v.after_lookup(offset).misses == v.misses
            &&& (pixel < v.tiles[offset].len() ==> v.lookup_result(offset, pixel) == Some(
                v.tiles[offset][pixel as int],
            ))
            &&& (pixel >= v.tiles[offset].len() ==> v.lookup_result(offset, pixel) is None)
            &&& forall|j: u64| #[trigger]
                v.tiles.contains_key(j) && j != offset ==> v.after_lookup(offset).last_used[j]
                    < v.after_lookup(offset).last_used[offset]
        },
        !v.tiles.contains_key(offset) ==> {
            &&& v.after_lookup(offset).misses == v.misses + 1
            &&& v.after_lookup(offset).hits == v.hits
            &&& v.lookup_result(offset, pixel) is None
        },
{
}

/// A fresh cache has exactly the requested capacity, holds nothing and has
/// counted nothing.
pub proof fn law_fresh_cache(capacity: usize)
    ensures
        CacheView::empty(capacity).capacity == capacity,
        CacheView::empty(capacity).tiles.len() == 0,
        CacheView::empty(capacity).consistent(),
        CacheView::empty(capacity).queries == 0,
        CacheView::empty(capacity).tiles_decoded == 0,
        CacheView::empty(capacity).evictions == 0,
        CacheView::empty(capacity).decode_nanos == 0,
{
    assert(CacheView::empty(capacity).tiles.dom() =~= Set::empty());
}

/// Inserting never changes the capacity, and while the cache has room, or
/// the tile is already held, nothing is evicted: every other held tile stays
/// as it was and the inserted one is held.
pub proof fn law_insert_with_room_keeps_everything(
    v: CacheView,
    offset: u64,
    samples: Seq<u32>,
    nanos: u128,
)
    requires
        v.consistent(),
        v.has_headroom(),
        v.capacity > 0,
        v.tiles.len() < v.capacity || v.tiles.contains_key(offset),
    ensures
        ({
            let w = v.after_insert(offset, samples, nanos);
            &&& w.capacity == v.capacity
            &&& w.evictions == v.evictions
            &&& w.tiles.contains_key(offset)
            &&& w.tiles[offset] == samples
            &&& forall|k: u64| #[trigger]
                v.tiles.contains_key(k) && k != offset ==> w.tiles.contains_key(k) && w.tiles[k]
                    == v.tiles[k]
            &&& w.tiles.len() == if v.tiles.contains_key(offset) {
                v.tiles.len()
            } else {
                v.tiles.len() + 1
            }
        }),
{
    let w = v.after_insert(offset, samples, nanos);
    if v.tiles.contains_key(offset) {
        assert(w.tiles.dom() =~= v.tiles.dom());
    } else {
        assert(w.tiles.dom() =~= v.tiles.dom().insert(offset));
    }
}

/// An insertion of a new tile into a full cache evicts exactly one tile, and
/// that tile's last use is no later than that of any tile it held; every
/// other tile stays as it was, and the capacity is respected.
pub proof fn law_full_insert_evicts_least_recently_used(
    v: CacheView,
    offset: u64,
    samples: Seq<u32>,
    nanos: u128,
)
    requires
        v.consistent(),
        v.has_headroom(),
        v.capacity > 0,
        !v.tiles.contains_key(offset),
        v.tiles.len() >= v.capacity,
    ensures
        ({
            let w = v.after_insert(offset, samples, nanos);
            &&& w.evictions == v.evictions + 1
            &&& w.tiles.len() == v.tiles.len()
            &&& w.tiles.len() <= w.capacity
            &&& w.tiles.contains_key(offset)
            &&& w.tiles[offset] == samples
            &&& exists|k: u64| #[trigger] v.tiles.contains_key(k) && !w.tiles.contains_key(k)
            &&& forall|k: u64| #[trigger]
                v.tiles.contains_key(k) && !w.tiles.contains_key(k) ==> forall|j: u64|
                    #[trigger] v.tiles.contains_key(j) ==> v.last_used[k] <= v.last_used[j]
            &&& forall|k: u64, j: u64|
                #![trigger v.tiles.contains_key(k), v.tiles.contains_key(j)]
                v.tiles.contains_key(k) && !w.tiles.contains_key(k) && v.tiles.contains_key(j)
                    && w.tiles.contains_key(j) && j != offset ==> w.tiles[j] == v.tiles[j]
        }),
{
    let w = v.after_insert(offset, samples, nanos);
    assert(v.tiles.len() > 0);
    assert(v.last_used.dom().len() > 0);
    lemma_some_lru(v);
    let victim = v.lru();
    assert(v.is_lru(victim));
    assert(v.tiles.contains_key(victim));
    assert(w.tiles.dom() =~= v.tiles.dom().remove(victim).insert(offset));
    assert(!w.tiles.contains_key(victim));
    assert forall|k: u64| #[trigger]
        v.tiles.contains_key(k) && !w.tiles.contains_key(k) implies forall|j: u64|
        #[trigger] v.tiles.contains_key(j) ==> v.last_used[k] <= v.last_used[j] by {
        assert(k == victim);
    }
}

/// Each insertion adds its decode time, clamped to `u64::MAX`, to the running
/// total, which saturates at `u64::MAX`; lookups and out-of-range queries
/// leave it alone.
pub proof fn law_decode_time_accumulates(
    v: CacheView,
    offset: u64,
    samples: Seq<u32>,
    nanos: u128,
)
    ensures
        ({
            let added: int = if nanos > u64::MAX {
                u64::MAX as int
            } else {
                nanos as int
            };
            v.after_insert(offset, samples, nanos).decode_nanos == if v.decode_nanos + added
                > u64::MAX {
                u64::MAX as int
            } else {
                v.decode_nanos + added
            }
        }),
        v.after_lookup(offset).decode_nanos == v.decode_nanos,
        v.after_out_of_range().decode_nanos == v.decode_nanos,
{
}

/// Two insertions record the sum of their decode times, unless the total
/// saturates.
pub proof fn law_decode_times_add_up(
    v: CacheView,
    a: u64,
    b: u64,
    samples: Seq<u32>,
    nanos_a: u64,
    nanos_b: u64,
)
    requires
        v.decode_nanos + nanos_a + nanos_b <= u64::MAX,
    ensures
        v.after_insert(a, samples, nanos_a as u128).after_insert(
            b,
            samples,
            nanos_b as u128,
        ).decode_nanos == v.decode_nanos + nanos_a + nanos_b,
{
}

/// A cache state that holds a tile has a least recently used one.
proof fn lemma_some_lru(v: CacheView)
    requires
        v.last_used.dom().finite(),
        v.last_used.dom().len() > 0,
    ensures
        exists|k: u64| v.is_lru(k),
    decreases v.last_used.dom().len(),
{
    let k0 = v.last_used.dom().choose();
    assert(v.last_used.contains_key(k0));
    if v.last_used.dom().len() == 1 {
        let rest = v.last_used.dom().remove(k0);
        rest.lemma_len0_is_empty();
        assert forall|j: u64| #[trigger] v.last_used.contains_key(j) implies v.last_used[k0]
            <= v.last_used[j] by {
            if j != k0 {
                assert(rest.contains(j));
            }
        }
        assert(v.is_lru(k0));
    } else {
        let w = CacheView { last_used: v.last_used.remove(k0), ..v };
        assert(w.last_used.dom() =~= v.last_used.dom().remove(k0));
        lemma_some_lru(w);
        let m = choose|k: u64| w.is_lru(k);
        if v.last_used[k0] <= v.last_used[m] {
            assert(v.is_lru(k0));
        } else {
            assert(v.is_lru(m));
        }
    }
}

} // verus!
