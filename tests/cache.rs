use rustcore::lru::{LRUCache, PageCache};

#[test]
fn test_lru_basic() {
    let mut cache = LRUCache::new(2);

    cache.insert(1, "one");
    cache.insert(2, "two");

    assert_eq!(cache.get(&1), Some(&"one"));
    assert_eq!(cache.get(&2), Some(&"two"));

    // "one" is now the least recently used entry.
    cache.insert(3, "three");
    assert_eq!(cache.get(&1), None);
    assert_eq!(cache.get(&2), Some(&"two"));
    assert_eq!(cache.get(&3), Some(&"three"));
}

#[test]
fn test_page_cache() {
    let mut cache = PageCache::new(2);

    let data1 = vec![1, 2, 3, 4];
    let data2 = vec![5, 6, 7, 8];

    cache.insert_page(0x1000, 4, data1);
    cache.insert_page(0x2000, 4, data2);

    assert_eq!(cache.get_page(0x1000, 4), Some(&[1, 2, 3, 4][..]));
    assert_eq!(cache.get_page(0x2000, 4), Some(&[5, 6, 7, 8][..]));

    // The page at 0x1000 is now the least recently used.
    let data3 = vec![9, 10, 11, 12];
    cache.insert_page(0x3000, 4, data3);

    assert_eq!(cache.get_page(0x1000, 4), None);
    assert_eq!(cache.get_page(0x2000, 4), Some(&[5, 6, 7, 8][..]));
    assert_eq!(cache.get_page(0x3000, 4), Some(&[9, 10, 11, 12][..]));
}

#[test]
fn one_past_capacity_evicts_only_the_first_key() {
    let mut cache = LRUCache::new(3);
    cache.insert(10u64, 'a');
    cache.insert(20u64, 'b');
    cache.insert(30u64, 'c');
    cache.insert(40u64, 'd');
    assert_eq!(cache.len(), 3);
    assert!(!cache.contains_key(&10));
    assert!(cache.contains_key(&20));
    assert!(cache.contains_key(&30));
    assert!(cache.contains_key(&40));
}

#[test]
fn access_protects_least_recently_inserted_key() {
    let mut cache = LRUCache::new(2);
    cache.insert(1u64, 100u32);
    cache.insert(2u64, 200u32);
    assert_eq!(cache.get(&1), Some(&100));
    cache.insert(3u64, 300u32);
    assert!(cache.contains_key(&1));
    assert!(!cache.contains_key(&2));
    assert!(cache.contains_key(&3));
}

#[test]
fn capacity_two_page_cache_scenario() {
    let mut cache = PageCache::new(2);
    cache.insert_page(0x1000, 4, vec![1, 2, 3, 4]);
    cache.insert_page(0x2000, 4, vec![5, 6, 7, 8]);
    assert_eq!(cache.get_page(0x1000, 4), Some(&[1, 2, 3, 4][..]));
    cache.insert_page(0x3000, 4, vec![9, 10, 11, 12]);
    assert_eq!(cache.get_page(0x2000, 4), None);
    assert_eq!(cache.get_page(0x3000, 4), Some(&[9, 10, 11, 12][..]));
    assert_eq!(cache.get_page(0x1000, 4), Some(&[1, 2, 3, 4][..]));
}

#[test]
fn overwrite_promotes_and_keeps_size() {
    let mut cache = LRUCache::new(2);
    cache.insert(1u64, 1u8);
    cache.insert(2u64, 2u8);
    cache.insert(1u64, 11u8);
    assert_eq!(cache.len(), 2);
    cache.insert(3u64, 3u8);
    assert_eq!(cache.get(&1), Some(&11));
    assert_eq!(cache.get(&2), None);
}

#[test]
fn remove_is_independent_of_recency() {
    let mut cache = LRUCache::new(3);
    cache.insert(1u64, "a");
    cache.insert(2u64, "b");
    assert_eq!(cache.remove(&2), Some("b"));
    assert_eq!(cache.remove(&2), None);
    assert_eq!(cache.len(), 1);
    assert!(!cache.is_empty());
    cache.clear();
    assert!(cache.is_empty());
    assert_eq!(cache.get(&1), None);
}

#[test]
fn zero_capacity_cache_holds_nothing() {
    let mut cache = LRUCache::new(0);
    cache.insert(1u64, 1u8);
    assert_eq!(cache.len(), 0);
    assert_eq!(cache.get(&1), None);
}

#[test]
fn page_cache_distinguishes_sizes_and_removes() {
    let mut cache = PageCache::new(4);
    cache.insert_page(0x1000, 2, vec![1, 2]);
    cache.insert_page(0x1000, 3, vec![3, 4, 5]);
    assert_eq!(cache.get_page(0x1000, 2), Some(&[1, 2][..]));
    assert_eq!(cache.remove_page(0x1000, 3), Some(vec![3, 4, 5]));
    assert_eq!(cache.get_page(0x1000, 3), None);
    assert_eq!(cache.least_recent(), Some(rustcore::lru::PageKey { address: 0x1000, size: 2 }));
    cache.clear();
    assert_eq!(cache.get_page(0x1000, 2), None);
}
