use cosmwasm_std::{MemoryStorage, Storage};
use crownfi_cw_common::storage::base::{
    set_global_storage, storage_has, storage_iter_new, storage_iter_next_key, storage_iter_next_pair,
    storage_iter_next_value, storage_read, storage_remove, storage_write, GlobalStorage,
};
use crownfi_cw_common::storage::{
    IteratorDirection, StorageIterId, StorageKeyIterator, StoragePairIterator, StorageValueIterator,
};

fn filled() -> GlobalStorage {
    let mut store = GlobalStorage::new();
    for key in [b"a", b"b", b"c", b"d"] {
        storage_write(&mut store, key, &[key[0], 1]);
    }
    store
}

#[test]
fn read_write_remove() {
    let mut store = GlobalStorage::new();
    assert_eq!(storage_read(&store, b"k"), None);
    assert!(!storage_has(&store, b"k"));
    storage_write(&mut store, b"k", b"v1");
    assert_eq!(storage_read(&store, b"k"), Some(b"v1".to_vec()));
    storage_write(&mut store, b"k", b"v2");
    assert_eq!(storage_read(&store, b"k"), Some(b"v2".to_vec()));
    assert!(storage_has(&store, b"k"));
    storage_remove(&mut store, b"k");
    assert_eq!(storage_read(&store, b"k"), None);
    storage_remove(&mut store, b"k");
    assert!(!storage_has(&store, b"k"));
}

#[test]
fn cursor_walks_ascending_and_descending() {
    let mut store = filled();
    let up = storage_iter_new(&mut store, Some(b"b"), Some(b"d"), IteratorDirection::Ascending);
    assert_eq!(up, StorageIterId(0));
    assert_eq!(storage_iter_next_pair(&mut store, up), Some((b"b".to_vec(), vec![b'b', 1])));
    assert_eq!(storage_iter_next_key(&mut store, up), Some(b"c".to_vec()));
    assert_eq!(storage_iter_next_pair(&mut store, up), None);
    assert_eq!(storage_iter_next_pair(&mut store, up), None);

    let down = storage_iter_new(&mut store, Some(b"b"), Some(b"d"), IteratorDirection::Descending);
    assert_eq!(down, StorageIterId(1));
    assert_eq!(storage_iter_next_value(&mut store, down), Some(vec![b'c', 1]));
    assert_eq!(storage_iter_next_key(&mut store, down), Some(b"b".to_vec()));
    assert_eq!(storage_iter_next_key(&mut store, down), None);

    let all = storage_iter_new(&mut store, None, None, IteratorDirection::Descending);
    let mut keys = Vec::new();
    while let Some(key) = storage_iter_next_key(&mut store, all) {
        keys.push(key);
    }
    assert_eq!(keys, vec![b"d".to_vec(), b"c".to_vec(), b"b".to_vec(), b"a".to_vec()]);
}

#[test]
fn cursor_over_nothing_and_unknown_cursor() {
    let mut store = filled();
    let empty = storage_iter_new(&mut store, Some(b"x"), None, IteratorDirection::Ascending);
    assert_eq!(storage_iter_next_pair(&mut store, empty), None);
    let backwards = storage_iter_new(&mut store, Some(b"c"), Some(b"a"), IteratorDirection::Ascending);
    assert_eq!(storage_iter_next_pair(&mut store, backwards), None);
    assert_eq!(storage_iter_next_pair(&mut store, StorageIterId(99)), None);
}

#[test]
fn cursor_looks_one_record_ahead() {
    let mut store = filled();
    let up = storage_iter_new(&mut store, None, None, IteratorDirection::Ascending);
    assert_eq!(storage_iter_next_key(&mut store, up), Some(b"a".to_vec()));
    // the cursor already holds "b"; what follows is looked up at the next step
    storage_remove(&mut store, b"b");
    storage_write(&mut store, b"bb", b"new");
    assert_eq!(storage_iter_next_key(&mut store, up), Some(b"b".to_vec()));
    assert_eq!(storage_iter_next_key(&mut store, up), Some(b"bb".to_vec()));
    assert_eq!(storage_iter_next_key(&mut store, up), Some(b"c".to_vec()));
}

#[test]
fn replacing_the_records_ends_the_cursors() {
    let mut store = filled();
    let up = storage_iter_new(&mut store, None, None, IteratorDirection::Ascending);
    assert_eq!(storage_iter_next_key(&mut store, up), Some(b"a".to_vec()));
    let mut other = MemoryStorage::new();
    other.set(b"z", b"zz");
    let previous = set_global_storage(&mut store, other);
    assert_eq!(previous.get(b"a"), Some(vec![b'a', 1]));
    assert_eq!(storage_read(&store, b"z"), Some(b"zz".to_vec()));
    assert_eq!(storage_read(&store, b"a"), None);
    assert_eq!(storage_iter_next_key(&mut store, up), None);
    let fresh = storage_iter_new(&mut store, None, None, IteratorDirection::Ascending);
    assert_eq!(storage_iter_next_key(&mut store, fresh), Some(b"z".to_vec()));
}

#[test]
fn pair_iterator_from_both_ends() {
    let mut store = filled();
    let mut iter = StoragePairIterator::new(Some(b"a"), Some(b"d"));
    assert_eq!(iter.next(&mut store), Some((b"a".to_vec(), vec![b'a', 1])));
    assert_eq!(iter.next_back(&mut store), Some((b"c".to_vec(), vec![b'c', 1])));
    assert_eq!(iter.next_back(&mut store), Some((b"b".to_vec(), vec![b'b', 1])));
    assert_eq!(iter.next_back(&mut store), None);
    assert_eq!(iter.next(&mut store), None);
}

#[test]
fn every_interleaving_hands_out_each_key_once() {
    // all patterns of six steps over five keys
    for pattern in 0u32..64 {
        let mut store = GlobalStorage::new();
        for key in 1u8..=5 {
            storage_write(&mut store, &[key], &[key]);
        }
        let mut iter = StorageKeyIterator::new(None, None);
        let mut front = Vec::new();
        let mut back = Vec::new();
        for step in 0..6 {
            if pattern & (1 << step) == 0 {
                if let Some(key) = iter.next(&mut store) {
                    front.push(key[0]);
                }
            } else if let Some(key) = iter.next_back(&mut store) {
                back.push(key[0]);
            }
        }
        back.reverse();
        front.extend(back);
        assert_eq!(front, vec![1, 2, 3, 4, 5], "pattern {pattern}");
        assert_eq!(iter.next(&mut store), None);
        assert_eq!(iter.next_back(&mut store), None);
    }
}

#[test]
fn key_and_value_iterators_skip() {
    let mut store = filled();
    let mut keys = StorageKeyIterator::new(None, None);
    assert_eq!(keys.nth(&mut store, 1), Some(b"b".to_vec()));
    assert_eq!(keys.nth(&mut store, 5), None);
    let mut values = StorageValueIterator::new(None, None);
    assert_eq!(values.nth(&mut store, 3), Some(vec![b'd', 1]));
    let mut values = StorageValueIterator::new(None, None);
    assert_eq!(values.next_back(&mut store), Some(vec![b'd', 1]));
    assert_eq!(values.next(&mut store), Some(vec![b'a', 1]));
    let mut pairs = values.into_pairs();
    assert_eq!(pairs.next(&mut store), Some((b"b".to_vec(), vec![b'b', 1])));
    let mut keys = pairs.into_keys();
    assert_eq!(keys.next(&mut store), Some(b"c".to_vec()));
    assert_eq!(keys.next(&mut store), None);
    // skipping from the back and then stepping hands out from the front
    let mut keys = StorageKeyIterator::new(None, None);
    assert_eq!(keys.nth_back(&mut store, 1), Some(b"a".to_vec()));
    assert_eq!(keys.next_back(&mut store), Some(b"c".to_vec()));
    assert_eq!(keys.next(&mut store), Some(b"b".to_vec()));
    assert_eq!(keys.next(&mut store), None);
}

#[test]
fn unbounded_back_before_front() {
    // a back step over nothing, then a record, then a front step
    let mut store = GlobalStorage::new();
    let mut iter = StorageKeyIterator::new(None, None);
    assert_eq!(iter.next_back(&mut store), None);
    storage_write(&mut store, b"late", b"x");
    assert_eq!(iter.next(&mut store), Some(b"late".to_vec()));
}
