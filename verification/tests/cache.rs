use candi::cache::{CacheKey, ImageCache, RecolorKey};

fn key(page: usize) -> CacheKey {
    CacheKey { page, scale_q: 100 }
}

fn bitmap(bytes: usize) -> Vec<u8> {
    vec![7u8; bytes]
}

#[test]
fn miss_then_hit() {
    let mut cache = ImageCache::new(1000);
    assert!(!cache.contains(key(0)));
    assert!(cache.get(key(0)).is_none());
    assert!(cache.insert(key(0), 5, 5, bitmap(100)));
    let img = cache.get(key(0)).unwrap();
    assert_eq!((img.width, img.height), (5, 5));
    assert_eq!(img.rgba, &[7; 100][..]);
    assert_eq!(cache.byte_len(), 100);
}

#[test]
fn eviction_keeps_bytes_under_budget() {
    let mut cache = ImageCache::new(200);
    assert!(cache.insert(key(0), 1, 1, bitmap(100)));
    assert!(cache.insert(key(1), 1, 1, bitmap(100)));
    assert_eq!(cache.len(), 2);
    assert!(cache.insert(key(2), 1, 1, bitmap(100)));
    assert_eq!(cache.len(), 2);
    assert_eq!(cache.byte_len(), 200);
    assert!(!cache.contains(key(0)), "oldest entry evicted first");
    assert!(cache.contains(key(1)));
    assert!(cache.contains(key(2)));
}

#[test]
fn get_refreshes_recency() {
    let mut cache = ImageCache::new(200);
    cache.insert(key(0), 1, 1, bitmap(100));
    cache.insert(key(1), 1, 1, bitmap(100));
    cache.get(key(0)).unwrap();
    cache.insert(key(2), 1, 1, bitmap(100));
    assert!(cache.contains(key(0)));
    assert!(!cache.contains(key(1)), "untouched entry evicted despite age");
}

#[test]
fn oversized_bitmaps_are_refused_without_disturbing_the_cache() {
    let mut cache = ImageCache::new(150);
    cache.insert(key(0), 1, 1, bitmap(100));
    assert!(!cache.insert(key(1), 1, 1, bitmap(151)));
    assert_eq!(cache.byte_len(), 100);
    assert_eq!(cache.len(), 1);
    assert!(cache.contains(key(0)));
}

#[test]
fn replacing_an_entry_does_not_double_count_or_evict() {
    let mut cache = ImageCache::new(250);
    cache.insert(key(0), 1, 1, bitmap(100));
    cache.insert(key(1), 1, 1, bitmap(100));
    assert!(cache.insert(key(0), 2, 2, bitmap(100)));
    assert_eq!(cache.byte_len(), 200);
    assert_eq!(cache.len(), 2);
    assert!(cache.contains(key(1)), "replacement must not evict others");
    cache.insert(key(2), 1, 1, bitmap(100));
    assert!(!cache.contains(key(1)));
    assert!(cache.contains(key(0)));
}

#[test]
fn zero_budget_caches_nothing() {
    let mut cache = ImageCache::new(0);
    assert!(!cache.insert(key(0), 1, 1, bitmap(4)));
    assert!(cache.is_empty());
}

#[test]
fn recolor_keys_stay_distinct_and_evict_by_recency() {
    let base = RecolorKey { page: 0, scale_q: 100, theme: 1 };
    let other_theme = RecolorKey { theme: 2, ..base };
    let mut cache = ImageCache::<RecolorKey>::new(200);
    assert!(cache.insert(base, 1, 1, bitmap(100)));
    assert!(cache.insert(other_theme, 1, 1, bitmap(100)));
    cache.insert(RecolorKey { page: 1, theme: 1, ..base }, 1, 1, bitmap(100));
    assert!(!cache.contains(base), "oldest theme entry evicted first");
    assert!(cache.contains(other_theme));
}

#[test]
fn a_bitmap_exactly_the_budget_fits_and_evicts_everything_else() {
    let mut cache = ImageCache::new(200);
    cache.insert(key(0), 1, 1, bitmap(100));
    assert!(cache.insert(key(1), 1, 1, bitmap(200)));
    assert_eq!(cache.len(), 1);
    assert!(cache.contains(key(1)));
}
