//! The cache of bind groups a draw's key finds.
//!
//! A set of bind groups is built once per key and reused by every draw whose bindings fold to that
//! key. The cache keeps the most recently used sets, evicting the least recently used one when it is
//! full, and forgets every set that names a resource which is about to be freed: the allocator hands
//! the same address out again, and a set kept past the free would be handed out for a resource that
//! is not the one it was built for. An invalidation that happens where the entries cannot be reached
//! bumps an epoch instead, and the whole cache goes on the next lookup.

use vstd::prelude::*;
use std::collections::HashMap;
use vstd::std_specs::iter::IteratorSpec;

use crate::blaze::CallFold;

verus! {

broadcast use vstd::std_specs::hash::group_hash_axioms;

/// How many sets the cache keeps.
pub const BIND_GROUP_CACHE_LIMIT: usize = 256;

/// One cached set: the bind groups, every resource address they refer to, and when it was last
/// used.
pub struct CacheEntry<V> {
    pub cached: V,
    pub addresses: Vec<usize>,
    pub tick: u64,
}

/// The cache: `None` until something is stored, a clock that counts uses, and the epoch it was last
/// reconciled with.
pub struct BindGroupCache<V> {
    pub entries: Option<HashMap<u64, CacheEntry<V>>>,
    pub ticks: u64,
    pub epoch: u64,
}

/// The entries of a cache, as a map.
pub open spec fn entries_of<V>(entries: Option<HashMap<u64, CacheEntry<V>>>) -> Map<u64, CacheEntry<V>> {
    match entries {
        Some(m) => m@,
        None => Map::empty(),
    }
}

/// Whether `key` has the least recent use of the map's entries.
pub open spec fn least_recent<V>(m: Map<u64, CacheEntry<V>>, key: u64) -> bool {
    &&& m.contains_key(key)
    &&& forall|k: u64| #[trigger] m.contains_key(k) ==> m[key].tick <= m[k].tick
}

/// The keys of entries that refer to `address`.
pub open spec fn naming<V>(m: Map<u64, CacheEntry<V>>, address: usize) -> Set<u64> {
    m.dom().filter(|k: u64| m[k].addresses@.contains(address))
}

/// What storing leaves: the map with the new entry, less its least recently used entry when that
/// made it hold more than the limit.
pub open spec fn after_store<V>(inserted: Map<u64, CacheEntry<V>>, result: Map<u64, CacheEntry<V>>) -> bool {
    if inserted.len() > BIND_GROUP_CACHE_LIMIT {
        exists|evicted: u64| least_recent(inserted, evicted) && result == inserted.remove(evicted)
    } else {
        result == inserted
    }
}

/// What looking `key` up does: the cache is reconciled with `epoch` first; a cache that never
/// stored anything stays empty and misses, and one that did counts the use, reports whether `key`
/// is there, and marks it as just used, every other set staying as it was.
pub open spec fn took<V>(
    before_cache: BindGroupCache<V>,
    key: u64,
    epoch: u64,
    after: BindGroupCache<V>,
    hit: bool,
) -> bool {
    let before = if before_cache.epoch != epoch {
        None
    } else {
        before_cache.entries
    };
    let m = entries_of(before);
    &&& after.epoch == epoch
    &&& before is None ==> !hit && after.entries is None && after.ticks == before_cache.ticks
    &&& before is Some ==> {
        &&& after.ticks == before_cache.ticks.wrapping_add(1)
        &&& hit == m.contains_key(key)
        &&& after.entries is Some
        &&& hit ==> entries_of(after.entries).dom() =~= m.dom() && entries_of(after.entries)[key].tick
            == after.ticks && entries_of(after.entries)[key].cached == m[key].cached
            && entries_of(after.entries)[key].addresses == m[key].addresses && forall|k: u64|
            k != key && m.contains_key(k) ==> #[trigger] entries_of(after.entries)[k] == m[k]
        &&& !hit ==> entries_of(after.entries) =~= m
    }
}

/// Where a draw's bind groups come from once its bindings are folded.
#[derive(Clone, Copy, Debug, PartialEq, Eq, Structural)]
pub enum GroupsSource {
    /// The key is the one the pass holds: the pass keeps its set and only the offsets travel.
    Keep,
    /// The set was found in the cache under the key.
    Cached,
    /// A set has to be built from the draw's bindings.
    Build,
    /// The draw came numbered without its table and nothing answers for it: it is refused, and the
    /// JVM draws again with the table.
    Unknown,
}

/// The source the closing decision picks, given whether the cache was asked and what it said.
pub open spec fn spec_groups_source(
    refused: bool,
    key: u64,
    held_key: u64,
    numbered_without_table: bool,
    caching: bool,
    hit: bool,
) -> GroupsSource {
    if refused {
        GroupsSource::Unknown
    } else if key == held_key {
        GroupsSource::Keep
    } else if caching && hit {
        GroupsSource::Cached
    } else if numbered_without_table {
        GroupsSource::Unknown
    } else {
        GroupsSource::Build
    }
}

/// Decides where a folded draw's bind groups come from.
///
/// A refused fold is refused. A key equal to the one the pass holds keeps the pass's set. Otherwise
/// the cache is asked, and only while `caching` is on: a hit is used. A draw that came numbered
/// without its table and was not found is refused, since there is nothing to build it from; any
/// other draw has its set built. The cache is touched only when it is asked.
pub fn groups_source<V>(
    fold: &CallFold,
    held_key: u64,
    combo: u32,
    bindings_present: u32,
    caching: bool,
    cache: &mut BindGroupCache<V>,
    epoch: u64,
) -> (source: GroupsSource)
    requires
        old(cache).wf(),
    ensures
        final(cache).wf(),
        ({
            let asked = !fold.refused && fold.key != held_key && caching;
            let tableless = combo != 0 && bindings_present == 0;
            &&& !asked ==> *final(cache) == *old(cache) && source == spec_groups_source(
                fold.refused,
                fold.key,
                held_key,
                tableless,
                caching,
                false,
            )
            &&& asked ==> exists|hit: bool|
                #[trigger] took(*old(cache), fold.key, epoch, *final(cache), hit) && source
                    == spec_groups_source(fold.refused, fold.key, held_key, tableless, caching, hit)
        }),
{
    if fold.refused {
        return GroupsSource::Unknown;
    }
    if fold.key == held_key {
        return GroupsSource::Keep;
    }
    if caching {
        let hit = cache.take(fold.key, epoch);
        assert(took(*old(cache), fold.key, epoch, *cache, hit));
        if hit {
            return GroupsSource::Cached;
        }
    }
    if combo != 0 && bindings_present == 0 {
        GroupsSource::Unknown
    } else {
        GroupsSource::Build
    }
}

impl<V> BindGroupCache<V> {
    /// Whether the cache holds no more sets than its limit.
    pub open spec fn wf(&self) -> bool {
        entries_of(self.entries).len() <= BIND_GROUP_CACHE_LIMIT
    }

    /// An empty cache.
    pub fn new() -> (c: Self)
        ensures
            c.wf(),
            c.entries is None,
            c.ticks == 0,
            c.epoch == 0,
    {
        BindGroupCache { entries: None, ticks: 0, epoch: 0 }
    }

    /// Drops everything when the epoch moved since the last lookup.
    pub fn refresh(&mut self, epoch: u64)
        ensures
            final(self).ticks == old(self).ticks,
            final(self).epoch == epoch,
            old(self).epoch != epoch ==> final(self).entries is None,
            old(self).epoch == epoch ==> final(self).entries == old(self).entries,
    {
        if self.epoch != epoch {
            self.epoch = epoch;
            self.entries = None;
        }
    }

    /// Looks `key` up after reconciling with `epoch`, and marks it as just used when it is there.
    ///
    /// The clock only runs once something has been stored.
    pub fn take(&mut self, key: u64, epoch: u64) -> (hit: bool)
        requires
            old(self).wf(),
        ensures
            final(self).wf(),
            took(*old(self), key, epoch, *final(self), hit),
    {
        self.refresh(epoch);
        match self.entries.take() {
            None => false,
            Some(mut map) => {
                self.ticks = self.ticks.wrapping_add(1);
                let tick = self.ticks;
                let ghost before = map@;
                let hit = match map.remove(&key) {
                    Some(entry) => {
                        let CacheEntry { cached, addresses, .. } = entry;
                        map.insert(key, CacheEntry { cached, addresses, tick });
                        assert(map@.dom() =~= before.dom());
                        true
                    },
                    None => false,
                };
                self.entries = Some(map);
                hit
            },
        }
    }

    /// The set cached under `key`, if there is one.
    pub fn cached(&self, key: u64) -> (r: Option<&V>)
        ensures
            entries_of(self.entries).contains_key(key) ==> r == Some(
                &entries_of(self.entries)[key].cached,
            ),
            !entries_of(self.entries).contains_key(key) ==> r is None,
    {
        match &self.entries {
            Some(map) => match map.get(&key) {
                Some(entry) => Some(&entry.cached),
                None => None,
            },
            None => None,
        }
    }

    /// Stores a freshly built set under `key`, after reconciling with `epoch`, evicting the least
    /// recently used set when the cache is full.
    pub fn store(&mut self, key: u64, cached: V, addresses: Vec<usize>, epoch: u64)
        requires
            old(self).wf(),
        ensures
            final(self).wf(),
            final(self).epoch == epoch,
            final(self).ticks == old(self).ticks.wrapping_add(1),
            final(self).entries is Some,
            ({
                let before = entries_of(
                    if old(self).epoch != epoch {
                        None
                    } else {
                        old(self).entries
                    },
                );
                let inserted = before.insert(
                    key,
                    CacheEntry { cached, addresses, tick: final(self).ticks },
                );
                after_store(inserted, entries_of(final(self).entries))
            }),
    {
        self.refresh(epoch);
        let ghost before = entries_of(self.entries);
        let mut map = match self.entries.take() {
            Some(map) => map,
            None => HashMap::new(),
        };
        assert(map@ == before);
        self.ticks = self.ticks.wrapping_add(1);
        let tick = self.ticks;
        let entry = CacheEntry { cached, addresses, tick };
        let ghost e = entry;
        map.insert(key, entry);
        let ghost inserted = map@;
        assert(inserted == before.insert(key, e));
        assert(inserted.dom().finite());
        assert(inserted.len() <= before.len() + 1) by {
            if before.contains_key(key) {
                assert(inserted.dom() =~= before.dom());
            } else {
                assert(inserted.dom() =~= before.dom().insert(key));
            }
        }
        let n = map.len();
        assert(n == inserted.len());
        if n > BIND_GROUP_CACHE_LIMIT {
            let oldest = least_recent_key(&map);
            map.remove(&oldest);
            assert(least_recent(inserted, oldest) && map@ == inserted.remove(oldest));
        }
        assert(after_store(inserted, map@));
        self.entries = Some(map);
    }

    /// Forgets every cached set that refers to `address`, which is about to be freed.
    pub fn invalidate(&mut self, address: usize)
        ensures
            final(self).ticks == old(self).ticks,
            final(self).epoch == old(self).epoch,
            old(self).entries is None ==> final(self).entries is None,
            old(self).entries is Some ==> final(self).entries is Some,
            entries_of(final(self).entries) == entries_of(old(self).entries).remove_keys(
                naming(entries_of(old(self).entries), address),
            ),
            old(self).wf() ==> final(self).wf(),
    {
        match self.entries.take() {
            None => {
                assert(Map::<u64, CacheEntry<V>>::empty().remove_keys(
                    naming(Map::<u64, CacheEntry<V>>::empty(), address),
                ) =~= Map::<u64, CacheEntry<V>>::empty());
            },
            Some(mut map) => {
                let ghost before = map@;
                let doomed = keys_naming(&map, address);
                remove_keys(&mut map, &doomed);
                assert(map@ =~= before.remove_keys(naming(before, address)));
                proof {
                    vstd::set_lib::lemma_len_subset(map@.dom(), before.dom());
                }
                self.entries = Some(map);
            },
        }
    }
}

/// The key whose entry was used least recently, in a map that is not empty.
fn least_recent_key<V>(map: &HashMap<u64, CacheEntry<V>>) -> (key: u64)
    requires
        map@.len() > 0,
    ensures
        least_recent(map@, key),
{
    let ghost all = vstd::std_specs::hash::spec_keys_iter(map).remaining();
    let mut best: Option<(u64, u64)> = None;
    for k in it: map.keys()
        invariant
            it.seq() == all,
            match best {
                Some((b, t)) => map@.contains_key(b) && map@[b].tick == t && forall|i: int|
                    0 <= i < it.index() ==> t <= #[trigger] map@[*it.seq()[i]].tick,
                None => it.index() == 0,
            },
    {
        let key: u64 = *k;
        assert(all.unref().to_set().contains(key)) by {
            assert(all.unref()[it.index() as int] == key);
        }
        assert(map@.contains_key(key));
        let tick = match map.get(&key) {
            Some(entry) => entry.tick,
            None => 0,
        };
        match best {
            Some((_, t)) => {
                if tick < t {
                    best = Some((key, tick));
                }
            },
            None => {
                best = Some((key, tick));
            },
        }
    }
    assert(all.unref().to_set() =~= map@.dom());
    match best {
        Some((b, _)) => {
            assert forall|k: u64| #[trigger] map@.contains_key(k) implies map@[b].tick <= map@[k].tick by {
                assert(all.unref().to_set().contains(k));
                let i = choose|i: int| 0 <= i < all.len() && all.unref()[i] == k;
                assert(*all[i] == k);
            }
            b
        },
        None => {
            proof {
                let k = map@.dom().choose();
                assert(map@.dom().len() > 0);
                assert(map@.dom().contains(k));
                assert(all.unref().to_set().contains(k));
            }
            0
        },
    }
}

/// The keys of entries that refer to `address`.
fn keys_naming<V>(map: &HashMap<u64, CacheEntry<V>>, address: usize) -> (keys: Vec<u64>)
    ensures
        keys@.to_set() == naming(map@, address),
{
    let ghost all = vstd::std_specs::hash::spec_keys_iter(map).remaining();
    let mut keys: Vec<u64> = Vec::new();
    for k in it: map.keys()
        invariant
            it.seq() == all,
            keys@.to_set() == all.unref().take(it.index() as int).to_set().filter(
                |key: u64| map@.contains_key(key) && map@[key].addresses@.contains(address),
            ),
    {
        let key: u64 = *k;
        let ghost before = keys@;
        assert(all.unref().take(it.index() as int + 1) =~= all.unref().take(it.index() as int).push(
            key,
        ));
        proof {
            all.unref().take(it.index() as int).lemma_push_to_set_commute(key);
        }
        let names = match map.get(&key) {
            Some(entry) => names_address(&entry.addresses, address),
            None => false,
        };
        if names {
            keys.push(key);
            proof {
                before.lemma_push_to_set_commute(key);
            }
        }
        assert(keys@.to_set() =~= all.unref().take(it.index() as int + 1).to_set().filter(
            |key: u64| map@.contains_key(key) && map@[key].addresses@.contains(address),
        ));
    }
    assert(all.unref().take(all.len() as int) =~= all.unref());
    assert(all.unref().to_set() =~= map@.dom());
    assert(keys@.to_set() =~= naming(map@, address));
    keys
}

/// Whether a list of addresses holds `address`.
fn names_address(addresses: &Vec<usize>, address: usize) -> (r: bool)
    ensures
        r == addresses@.contains(address),
{
    let mut i: usize = 0;
    while i < addresses.len()
        invariant
            i <= addresses.len(),
            forall|k: int| 0 <= k < i ==> addresses@[k] != address,
        decreases addresses.len() - i,
    {
        if addresses[i] == address {
            return true;
        }
        i = i + 1;
    }
    false
}

/// Removes every key of `keys` from `map`.
fn remove_keys<V>(map: &mut HashMap<u64, V>, keys: &Vec<u64>)
    ensures
        final(map)@ == old(map)@.remove_keys(keys@.to_set()),
{
    let mut i: usize = 0;
    while i < keys.len()
        invariant
            i <= keys@.len(),
            map@ == old(map)@.remove_keys(keys@.take(i as int).to_set()),
        decreases keys@.len() - i,
    {
        let key = keys[i];
        map.remove(&key);
        assert(keys@.take(i + 1).to_set() =~= keys@.take(i as int).to_set().insert(key)) by {
            assert(keys@.take(i + 1) =~= keys@.take(i as int).push(key));
            keys@.take(i as int).lemma_push_to_set_commute(key);
        }
        assert(map@ =~= old(map)@.remove_keys(keys@.take(i + 1).to_set()));
        i = i + 1;
    }
    assert(keys@.take(keys@.len() as int) =~= keys@);
}

/// A set that was just stored stays cached when it is the most recently used one and is not alone:
/// eviction takes the least recently used set.
pub proof fn lemma_newest_set_survives<V>(
    inserted: Map<u64, CacheEntry<V>>,
    result: Map<u64, CacheEntry<V>>,
    key: u64,
)
    requires
        after_store(inserted, result),
        inserted.dom().finite(),
        inserted.contains_key(key),
        inserted.len() >= 2,
        forall|k: u64| #[trigger] inserted.contains_key(k) && k != key ==> inserted[k].tick < inserted[key].tick,
    ensures
        result.contains_key(key),
{
    if inserted.len() > BIND_GROUP_CACHE_LIMIT {
        let evicted = choose|evicted: u64| least_recent(inserted, evicted) && result == inserted.remove(evicted);
        if evicted == key {
            let others = inserted.dom().remove(key);
            assert(others.len() >= 1);
            let other = others.choose();
            assert(others.contains(other));
            assert(inserted.contains_key(other) && other != key);
            assert(inserted[key].tick <= inserted[other].tick);
        }
    }
}

/// Once an address is invalidated, no cached set refers to it.
pub proof fn lemma_invalidated_sets_are_gone<V>(before: Map<u64, CacheEntry<V>>, address: usize)
    ensures
        forall|k: u64| #[trigger] before.remove_keys(naming(before, address)).contains_key(k)
            ==> !before[k].addresses@.contains(address),
{
}

} // verus!
