use crownfi_cw_common::error::StdError;
use crownfi_cw_common::storage::base::{storage_read, GlobalStorage};
use crownfi_cw_common::storage::vec::{IndexedStoredItemIter, StoredVec};
use crownfi_cw_common::storage::OZeroCopy;

const NAMESPACE: &[u8] = b"testing";

fn collect_u16(mut iter: IndexedStoredItemIter<u16>, store: &GlobalStorage) -> Vec<u16> {
    let mut out = Vec::new();
    while let Some(item) = iter.next(store) {
        if let Ok(cell) = item {
            out.push(cell.into_inner());
        }
    }
    out
}

fn push_values(store: &mut GlobalStorage, vec: &mut StoredVec<u16>) {
    vec.push(store, &69).unwrap();
    vec.push(store, &420).unwrap();
}

fn check_values(store: &GlobalStorage, vec: &StoredVec<u16>) {
    assert_eq!(collect_u16(vec.iter(), store), vec![69, 420]);
}

#[test]
fn get_after_dirty_clear() {
    let mut store = GlobalStorage::new();
    let mut vec = StoredVec::<u16>::new(&store, NAMESPACE);

    vec.extend(&mut store, vec![1, 2, 3]).unwrap();
    vec.clear(&mut store, true);

    let val = vec.get(&store, 0);

    assert_eq!(val, Err(StdError::NotFound));
}

#[test]
fn stored_vec() {
    let mut store = GlobalStorage::new();
    let mut vec = StoredVec::<u16>::new(&store, NAMESPACE);

    vec.push(&mut store, &69).unwrap();
    vec.push(&mut store, &420).unwrap();

    let vec: Vec<u16> = collect_u16(vec.into_iter(), &store);
    assert_eq!(vec, vec![69, 420]);

    let vec = StoredVec::<u16>::new(&store, NAMESPACE);
    assert_eq!(2, vec.len());
    assert_eq!(Some(OZeroCopy::from_inner(69)), vec.get(&store, 0).unwrap());
    assert_eq!(Some(OZeroCopy::from_inner(420)), vec.get(&store, 1).unwrap());

    vec.set(&mut store, 0, &123).unwrap();
    assert!(vec.set(&mut store, vec.len() + 1, &123).is_err());
    assert_eq!(Some(OZeroCopy::from_inner(123)), vec.get(&store, 0).unwrap());

    assert_eq!(vec.capacity(), u32::MAX);
}

#[test]
fn extend() {
    let mut store = GlobalStorage::new();
    let mut vec = StoredVec::<u16>::new(&store, NAMESPACE);

    vec.push(&mut store, &69).unwrap();
    vec.push(&mut store, &420).unwrap();
    vec.extend(&mut store, vec![1, 2, 3]).unwrap();
    let boxed = Box::new(4u16);
    vec.extend_ref(&mut store, &[boxed.as_ref()]).unwrap();

    let vec: Vec<u16> = collect_u16(vec.into_iter(), &store);
    assert_eq!(vec, vec![69, 420, 1, 2, 3, 4]);
}

#[test]
fn insert_and_remove() {
    let mut store = GlobalStorage::new();
    let mut vec = StoredVec::<u16>::new(&store, NAMESPACE);

    vec.push(&mut store, &69).unwrap();
    vec.push(&mut store, &420).unwrap();

    vec.insert(&mut store, 1, &1).unwrap();
    let v = collect_u16(vec.iter(), &store);
    assert_eq!(v, vec![69, 1, 420]);

    vec.remove(&mut store, 1).unwrap();
    let v = collect_u16(vec.iter(), &store);
    assert_eq!(v, vec![69, 420]);

    vec.extend(&mut store, vec![1, 2, 3]).unwrap();
    vec.pop(&mut store).unwrap();

    let v = collect_u16(vec.iter(), &store);
    assert_eq!(v, vec![69, 420, 1, 2]);

    vec.remove(&mut store, 1).unwrap();
    let v = collect_u16(vec.iter(), &store);
    assert_eq!(v, vec![69, 1, 2]);

    vec.clear(&mut store, true);
    assert!(vec.is_empty());
    assert!(vec.pop(&mut store).unwrap().is_none());
}

#[test]
fn extra_ops() {
    let mut store = GlobalStorage::new();
    let mut vec = StoredVec::<u16>::new(&store, NAMESPACE);

    vec.push(&mut store, &69).unwrap();
    vec.push(&mut store, &420).unwrap();

    vec.swap(&mut store, 0, 1).unwrap();

    let v = collect_u16(vec.iter(), &store);
    assert_eq!(v, vec![420, 69]);

    vec.extend(&mut store, vec![1, 2, 3]).unwrap();
    vec.swap_remove(&mut store, 1).unwrap();

    let v = collect_u16(vec.iter(), &store);
    assert_eq!(v, vec![420, 3, 1, 2]);

    vec.truncate(&mut store, 3, true);
    let v = collect_u16(vec.iter(), &store);
    assert_eq!(v, vec![420, 3, 1]);

    let mut iterator = vec.iter();
    iterator.advance_by(1).unwrap();
    let v = collect_u16(iterator, &store);
    assert_eq!(v, vec![3, 1]);

    let mut iterator = vec.iter();
    iterator.advance_back_by(1).unwrap();
    let v = collect_u16(iterator, &store);
    assert_eq!(v, vec![420, 3]);

    let mut iterator = vec.iter();
    let x = iterator.next_back(&store).unwrap().unwrap();
    assert_eq!(*x.as_ref(), 1);
    let x = iterator.nth_back(&store, 0).unwrap().unwrap();
    assert_eq!(*x.as_ref(), 3);
    let x = iterator.nth(&store, 0).unwrap().unwrap();
    assert_eq!(*x.as_ref(), 420);
}

#[test]
fn after_drop() {
    let mut store = GlobalStorage::new();
    let mut vec = StoredVec::<u16>::new(&store, NAMESPACE);

    vec.push(&mut store, &69).unwrap();
    vec.push(&mut store, &420).unwrap();

    drop(vec);

    let vec: Vec<u16> = collect_u16(StoredVec::<u16>::new(&store, NAMESPACE).into_iter(), &store);
    assert_eq!(vec, vec![69, 420]);
}

#[test]
fn clean() {
    let mut store = GlobalStorage::new();
    let mut vec = StoredVec::<u16>::new(&store, NAMESPACE);

    push_values(&mut store, &mut vec);
    check_values(&store, &vec);
    vec.clear(&mut store, true);
    drop(vec);

    let mut vec = StoredVec::<u16>::new(&store, NAMESPACE);
    let q = collect_u16(vec.iter(), &store);
    assert_eq!(q.len(), 0);

    push_values(&mut store, &mut vec);
    check_values(&store, &vec);
    vec.clear(&mut store, false);
    drop(vec);

    let mut vec = StoredVec::<u16>::new(&store, NAMESPACE);
    let q = collect_u16(vec.iter(), &store);
    assert_eq!(q.len(), 0);

    push_values(&mut store, &mut vec);
    check_values(&store, &vec);
    drop(vec);

    let mut vec = StoredVec::<u16>::new(&store, NAMESPACE);
    vec.clear(&mut store, false);
    let q = collect_u16(vec.iter(), &store);
    assert_eq!(q.len(), 0);

    push_values(&mut store, &mut vec);
    check_values(&store, &vec);
    drop(vec);

    let mut vec = StoredVec::<u16>::new(&store, NAMESPACE);
    vec.clear(&mut store, true);
    let q = collect_u16(vec.iter(), &store);
    assert_eq!(q.len(), 0);
}

#[test]
fn vec_push_pop_len() {
    let mut store = GlobalStorage::new();
    let mut vec = StoredVec::<u32>::new(&store, b"v");
    for i in 0..7u32 {
        vec.push(&mut store, &(i * 10)).unwrap();
    }
    for _ in 0..3 {
        vec.pop(&mut store).unwrap();
    }
    assert_eq!(vec.len(), 4);
    assert_eq!(StoredVec::<u32>::new(&store, b"v").len(), 4);
    let mut iter = vec.iter();
    let mut seen = Vec::new();
    while let Some(item) = iter.next(&store) {
        seen.push(item.unwrap().into_inner());
    }
    assert_eq!(seen, vec![0, 10, 20, 30]);
}

#[test]
fn vec_errors() {
    let mut store = GlobalStorage::new();
    let mut vec = StoredVec::<u16>::new(&store, NAMESPACE);
    assert_eq!(vec.set(&mut store, 0, &1), Err(StdError::NotFound));
    assert_eq!(vec.insert(&mut store, 1, &1), Err(StdError::NotFound));
    assert_eq!(vec.remove(&mut store, 0), Err(StdError::NotFound));
    assert_eq!(vec.swap_remove(&mut store, 0), Err(StdError::NotFound));
    assert_eq!(vec.swap(&mut store, 0, 1), Err(StdError::NotFound));
    vec.push(&mut store, &7).unwrap();
    // a slot whose bytes do not make a u16
    store_raw(&mut store, &[b't', b'e', b's', b't', b'i', b'n', b'g', 0, 0, 0, 0], &[1, 2, 3]);
    assert_eq!(vec.get(&store, 0), Err(StdError::ParseErr));
    assert_eq!(vec.pop(&mut store), Err(StdError::ParseErr));
    assert_eq!(vec.len(), 1);
}

fn store_raw(store: &mut GlobalStorage, key: &[u8], value: &[u8]) {
    crownfi_cw_common::storage::base::storage_write(store, key, value);
}

#[test]
fn vec_slot_layout() {
    let mut store = GlobalStorage::new();
    let mut vec = StoredVec::<u16>::new(&store, b"ns");
    vec.push(&mut store, &0x0102).unwrap();
    vec.push(&mut store, &0x0304).unwrap();
    assert_eq!(storage_read(&store, b"ns"), Some(vec![2, 0, 0, 0]));
    assert_eq!(storage_read(&store, &[b'n', b's', 0, 0, 0, 0]), Some(vec![2, 1]));
    assert_eq!(storage_read(&store, &[b'n', b's', 1, 0, 0, 0]), Some(vec![4, 3]));
    vec.truncate(&mut store, 1, false);
    assert_eq!(storage_read(&store, &[b'n', b's', 1, 0, 0, 0]), None);
    assert_eq!(storage_read(&store, b"ns"), Some(vec![1, 0, 0, 0]));
}

#[test]
fn indexed_iter_advance_past_end() {
    let mut store = GlobalStorage::new();
    let mut vec = StoredVec::<u16>::new(&store, NAMESPACE);
    vec.extend(&mut store, vec![1, 2, 3]).unwrap();
    let mut iter = vec.iter();
    assert_eq!(iter.size_hint(), (3, Some(3)));
    assert_eq!(iter.advance_by(5), Err(2));
    assert!(iter.next(&store).is_none());
    let mut iter = vec.iter();
    assert_eq!(iter.advance_back_by(4), Err(1));
    assert!(iter.next_back(&store).is_none());
    let mut iter = vec.iter();
    assert_eq!(iter.advance_by(3), Ok(()));
    assert!(iter.next(&store).is_none());
}

#[test]
fn get_tells_out_of_range_from_an_empty_slot() {
    let mut store = GlobalStorage::new();
    let mut vec = StoredVec::<u16>::new(&store, b"g");
    vec.push(&mut store, &7).unwrap();
    vec.push(&mut store, &8).unwrap();

    assert_eq!(vec.get(&store, 1).unwrap().map(OZeroCopy::into_inner), Some(8));
    assert_eq!(vec.get(&store, 2), Err(StdError::NotFound));
    assert_eq!(vec.get(&store, u32::MAX), Err(StdError::NotFound));
    assert_eq!(vec.set(&mut store, 2, &9), Err(StdError::NotFound));

    // the slot of the second element is emptied behind the vector's back
    crownfi_cw_common::storage::base::storage_remove(&mut store, &[b'g', 1, 0, 0, 0]);
    assert_eq!(vec.len(), 2);
    assert_eq!(vec.get(&store, 1), Ok(None));
}

#[test]
fn insert_grows_the_vector() {
    let mut store = GlobalStorage::new();
    let mut vec = StoredVec::<u16>::new(&store, b"i");

    vec.insert(&mut store, 0, &5).unwrap();
    assert_eq!(vec.len(), 1);
    vec.insert(&mut store, 1, &7).unwrap();
    vec.insert(&mut store, 0, &3).unwrap();
    vec.insert(&mut store, 2, &6).unwrap();
    assert_eq!(vec.len(), 4);
    assert_eq!(collect_u16(vec.iter(), &store), vec![3, 5, 6, 7]);
    assert_eq!(storage_read(&store, b"i"), Some(vec![4, 0, 0, 0]));
    assert_eq!(storage_read(&store, &[b'i', 3, 0, 0, 0]), Some(vec![7, 0]));

    assert_eq!(vec.insert(&mut store, 5, &9), Err(StdError::NotFound));
    assert_eq!(vec.len(), 4);
    assert_eq!(collect_u16(vec.iter(), &store), vec![3, 5, 6, 7]);

    // a vector that is opened again finds the length that the insertions left
    let reopened = StoredVec::<u16>::new(&store, b"i");
    assert_eq!(reopened.len(), 4);
    assert_eq!(reopened.get(&store, 3).unwrap().map(OZeroCopy::into_inner), Some(7));
}

#[test]
fn insert_into_a_full_vector_is_refused() {
    let mut store = GlobalStorage::new();
    crownfi_cw_common::storage::base::storage_write(&mut store, b"f", &[255, 255, 255, 255]);
    let mut vec = StoredVec::<u16>::new(&store, b"f");
    assert_eq!(vec.len(), u32::MAX);

    assert_eq!(vec.insert(&mut store, u32::MAX, &1), Err(StdError::Overflow));
    assert_eq!(vec.len(), u32::MAX);
    assert_eq!(storage_read(&store, &[b'f', 255, 255, 255, 255]), None);
    assert_eq!(storage_read(&store, b"f"), Some(vec![255, 255, 255, 255]));
}
