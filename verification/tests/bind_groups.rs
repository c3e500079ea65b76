use wgpu_mc_core::bind_groups::{BindGroupCache, BIND_GROUP_CACHE_LIMIT};
use wgpu_mc_core::bind_groups::{groups_source, GroupsSource};
use wgpu_mc_core::blaze::CallFold;

#[test]
fn a_stored_set_is_found_until_its_epoch_moves() {
    let mut cache: BindGroupCache<&str> = BindGroupCache::new();
    assert!(!cache.take(7, 0), "nothing stored yet");
    assert_eq!(cache.ticks, 0, "the clock only runs once something is stored");

    cache.store(7, "seven", vec![0x100, 0x200], 0);
    assert!(cache.take(7, 0));
    assert_eq!(cache.cached(7), Some(&"seven"));
    assert!(!cache.take(8, 0));
    assert_eq!(cache.cached(8), None);

    // Another thread invalidated something: the whole cache goes.
    assert!(!cache.take(7, 1));
    assert!(cache.entries.is_none());
    assert_eq!(cache.epoch, 1);
}

#[test]
fn a_freed_resource_takes_every_set_that_names_it() {
    let mut cache: BindGroupCache<u32> = BindGroupCache::new();
    cache.store(1, 10, vec![0x100, 0x200], 0);
    cache.store(2, 20, vec![0x300], 0);
    cache.store(3, 30, vec![0x200], 0);

    cache.invalidate(0x200);
    assert_eq!(cache.cached(1), None);
    assert_eq!(cache.cached(2), Some(&20));
    assert_eq!(cache.cached(3), None);

    let mut empty: BindGroupCache<u32> = BindGroupCache::new();
    empty.invalidate(0x200);
    assert!(empty.entries.is_none());
}

#[test]
fn a_full_cache_evicts_the_least_recently_used_set() {
    let mut cache: BindGroupCache<u64> = BindGroupCache::new();
    for key in 0..BIND_GROUP_CACHE_LIMIT as u64 {
        cache.store(key, key * 10, vec![], 0);
    }
    // Key 0 is used again, so key 1 is now the least recently used.
    assert!(cache.take(0, 0));
    cache.store(1000, 1, vec![], 0);

    assert_eq!(cache.entries.as_ref().map(|e| e.len()), Some(BIND_GROUP_CACHE_LIMIT));
    assert_eq!(cache.cached(0), Some(&0));
    assert_eq!(cache.cached(1), None);
    assert_eq!(cache.cached(2), Some(&20));
    assert_eq!(cache.cached(1000), Some(&1));
}

fn folded(key: u64, refused: bool) -> CallFold {
    CallFold { key, offsets: Vec::new(), refused }
}

#[test]
fn a_draw_keeps_finds_builds_or_is_refused() {
    let mut cache: BindGroupCache<u32> = BindGroupCache::new();
    cache.store(5, 50, vec![0x100], 0);
    let ticks = cache.ticks;

    // A refused fold is refused, and the cache is not asked.
    assert_eq!(groups_source(&folded(5, true), 0, 3, 0, true, &mut cache, 0), GroupsSource::Unknown);
    // The key the pass holds keeps the pass's set.
    assert_eq!(groups_source(&folded(5, false), 5, 0, 1, true, &mut cache, 0), GroupsSource::Keep);
    assert_eq!(cache.ticks, ticks);
    // Found in the cache, which counts the use.
    assert_eq!(groups_source(&folded(5, false), 9, 0, 1, true, &mut cache, 0), GroupsSource::Cached);
    assert_eq!(cache.ticks, ticks + 1);
    // With the cache switched off the set is built, and the cache is left alone.
    assert_eq!(groups_source(&folded(5, false), 9, 0, 1, false, &mut cache, 0), GroupsSource::Build);
    assert_eq!(cache.ticks, ticks + 1);
    // Not found: a numbered draw without its table is refused, any other is built.
    assert_eq!(groups_source(&folded(6, false), 9, 3, 0, true, &mut cache, 0), GroupsSource::Unknown);
    assert_eq!(groups_source(&folded(6, false), 9, 3, 1, true, &mut cache, 0), GroupsSource::Build);
    assert_eq!(groups_source(&folded(6, false), 9, 0, 0, true, &mut cache, 0), GroupsSource::Build);
}
