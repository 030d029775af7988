use pubsub_rs::tools::sync_dictionary::{DictionaryContainer, SyncDictionary};
use std::collections::{BTreeMap, HashMap};

#[test]
fn test_insert_get() {
    let mut dict: SyncDictionary<String, i32> = SyncDictionary::new();
    dict.insert("key1".to_string(), 10);
    assert_eq!(dict.get(&"key1".to_string()), Some(10));
}

#[test]
fn test_remove() {
    let mut dict: SyncDictionary<String, i32> = SyncDictionary::new();
    dict.insert("key1".to_string(), 10);
    dict.remove(&"key1".to_string());
    assert_eq!(dict.get(&"key1".to_string()), None);
}

#[test]
fn test_contains_key() {
    let mut dict: SyncDictionary<String, i32> = SyncDictionary::new();
    dict.insert("key1".to_string(), 10);
    assert!(dict.contains_key(&"key1".to_string()));
    assert!(!dict.contains_key(&"key2".to_string()));
}

#[test]
fn test_size_clear() {
    let mut dict: SyncDictionary<String, i32> = SyncDictionary::new();
    dict.insert("key1".to_string(), 10);
    dict.insert("key2".to_string(), 20);
    assert_eq!(dict.size(), 2);
    dict.clear();
    assert_eq!(dict.size(), 0);
}

#[test]
fn sync_dictionary_test_is_empty() {
    let mut dict: SyncDictionary<String, i32> = SyncDictionary::new();
    assert!(dict.is_empty());
    dict.insert("key1".to_string(), 10);
    assert!(!dict.is_empty());
}

#[test]
fn test_add_range() {
    let mut dict: SyncDictionary<String, i32> = SyncDictionary::new();
    let inserted = dict.add_range(vec![("key1".to_string(), 10), ("key2".to_string(), 20)]);
    assert_eq!(inserted, 2);
    assert_eq!(dict.get(&"key1".to_string()), Some(10));
    assert_eq!(dict.get(&"key2".to_string()), Some(20));
}

#[test]
fn test_hash_map_backed_dictionary() {
    let mut dict: SyncDictionary<String, i32, HashMap<String, i32>> = SyncDictionary::new();
    dict.insert("key1".to_string(), 10);
    assert_eq!(dict.get(&"key1".to_string()), Some(10));
    assert_eq!(dict.size(), 1);
}

#[test]
fn test_add_btree_collection() {
    let mut dict: SyncDictionary<String, i32> = SyncDictionary::new();
    let mut btree = BTreeMap::new();
    btree.insert("key1".to_string(), 10);
    btree.insert("key2".to_string(), 20);
    dict.add_btree_collection(&btree);
    assert_eq!(dict.get(&"key1".to_string()), Some(10));
    assert_eq!(dict.get(&"key2".to_string()), Some(20));
}

#[test]
fn test_add_hash_collection() {
    let mut dict: SyncDictionary<String, i32> = SyncDictionary::new();
    let mut hash_map = HashMap::new();
    hash_map.insert("key1".to_string(), 10);
    hash_map.insert("key2".to_string(), 20);
    dict.add_hash_collection(&hash_map);
    assert_eq!(dict.get(&"key1".to_string()), Some(10));
    assert_eq!(dict.get(&"key2".to_string()), Some(20));
}

#[test]
fn test_to_btree_collection() {
    let mut dict: SyncDictionary<String, i32> = SyncDictionary::new();
    dict.insert("key1".to_string(), 10);
    dict.insert("key2".to_string(), 20);
    let btree = dict.to_btree_collection();
    assert_eq!(btree.get("key1"), Some(&10));
    assert_eq!(btree.get("key2"), Some(&20));
}

#[test]
fn test_to_hash_collection() {
    let mut dict: SyncDictionary<String, i32> = SyncDictionary::new();
    dict.insert("key1".to_string(), 10);
    dict.insert("key2".to_string(), 20);
    let hash_map = dict.to_hash_collection();
    assert_eq!(hash_map.get("key1"), Some(&10));
    assert_eq!(hash_map.get("key2"), Some(&20));
}

#[test]
fn sync_dictionary_test_default() {
    let dict: SyncDictionary<String, i32> = SyncDictionary::default();
    assert_eq!(dict.size(), 0);
}

// A later pair wins over an earlier one with the same key.
#[test]
fn sync_dictionary_add_range_later_wins() {
    let mut dict: SyncDictionary<u32, &str> = SyncDictionary::new();
    assert_eq!(dict.add_range(vec![(1, "a"), (2, "b"), (1, "c")]), 3);
    assert_eq!(dict.size(), 2);
    assert_eq!(dict.get(&1), Some("c"));
    assert_eq!(dict.get(&2), Some("b"));
    dict.remove(&1);
    assert_eq!(dict.get(&1), None);
    assert_eq!(dict.size(), 1);
}

// The snapshot is an independent copy of the backing container.
#[test]
fn sync_dictionary_snapshot_is_a_copy() {
    let mut dict: SyncDictionary<u32, u32, HashMap<u32, u32>> = SyncDictionary::new();
    dict.insert(1, 10);
    let snap = dict.snapshot();
    dict.insert(2, 20);
    assert_eq!(snap.len(), 1);
    assert_eq!(snap.get(&1), Some(&10));
    assert_eq!(dict.size(), 2);
}

// The container abstraction lists every entry once.
#[test]
fn dictionary_container_to_vec() {
    let mut map: BTreeMap<u32, u32> = BTreeMap::new();
    DictionaryContainer::insert(&mut map, 3, 30);
    DictionaryContainer::insert(&mut map, 1, 10);
    assert_eq!(DictionaryContainer::to_vec(&map), vec![(1, 10), (3, 30)]);
    assert_eq!(DictionaryContainer::len(&map), 2);
}
