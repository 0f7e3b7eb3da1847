use shared_buffer::OwnedBuffer;
use virtual_fs::lru::DecompressedLruCache;

#[test]
fn lru_evicts_least_recently_used_first() {
    let mut cache = DecompressedLruCache::new(10);
    cache.put(1, OwnedBuffer::from(vec![0u8; 4]));
    cache.put(2, OwnedBuffer::from(vec![0u8; 4]));
    assert_eq!(cache.len(), 2);
    assert!(cache.get(1).is_some());
    cache.put(3, OwnedBuffer::from(vec![0u8; 4]));
    assert_eq!(cache.len(), 2);
    assert!(cache.get(2).is_none());
    assert!(cache.get(1).is_some());
    assert!(cache.get(3).is_some());
}

#[test]
fn lru_replaces_and_drops_oversized_entries() {
    let mut cache = DecompressedLruCache::new(10);
    cache.put(1, OwnedBuffer::from(vec![1u8; 3]));
    cache.put(1, OwnedBuffer::from(vec![2u8; 5]));
    assert_eq!(cache.len(), 1);
    assert_eq!(cache.get(1).unwrap().len(), 5);
    cache.put(2, OwnedBuffer::from(vec![0u8; 11]));
    assert_eq!(cache.len(), 0);
    assert!(cache.get(1).is_none());
    assert!(cache.get(2).is_none());
}
