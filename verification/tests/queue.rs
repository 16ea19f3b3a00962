use std::collections::VecDeque;

use crownfi_cw_common::error::StdError;
use crownfi_cw_common::storage::base::{storage_has, storage_read, storage_remove, storage_write, GlobalStorage};
use crownfi_cw_common::storage::queue::{QueueEnds, StoredVecDeque};
use crownfi_cw_common::storage::vec::{IndexedStoredItemIter, StoredVec};
use crownfi_cw_common::storage::OZeroCopy;

const NAMESPACE: &[u8] = b"testing";

fn collect_queue<V: crownfi_cw_common::storage::SerializableItem>(
    mut iter: IndexedStoredItemIter<V>,
    store: &GlobalStorage,
) -> VecDeque<V> {
    let mut out = VecDeque::new();
    while let Some(item) = iter.next(store) {
        if let Ok(cell) = item {
            out.push_back(cell.into_inner());
        }
    }
    out
}

#[test]
fn push_front_get_pop() {
    let mut store = GlobalStorage::new();
    let mut queue = StoredVecDeque::<u16>::new(&store, NAMESPACE);

    queue.push_front(&mut store, &1).unwrap();
    queue.push_front(&mut store, &2).unwrap();
    queue.push_front(&mut store, &3).unwrap();

    let val = queue.get(&store, 3);

    assert_eq!(val, Err(StdError::NotFound));
    assert_eq!(queue.pop_back(&mut store).unwrap().map(|ozc| ozc.into_inner()), Some(1));
    assert_eq!(queue.len(), 2);

    assert_eq!(queue.pop_front(&mut store).unwrap().map(|ozc| ozc.into_inner()), Some(3));
    assert_eq!(queue.len(), 1);
    assert_eq!(queue.get(&store, 0).unwrap().map(|ozc| ozc.into_inner()), Some(2));
}

#[test]
fn push_back_get_pop() {
    let mut store = GlobalStorage::new();
    let mut queue = StoredVecDeque::<u16>::new(&store, NAMESPACE);

    queue.push_back(&mut store, &1).unwrap();
    queue.push_back(&mut store, &2).unwrap();
    queue.push_back(&mut store, &3).unwrap();

    let val = queue.get(&store, 3);

    assert_eq!(queue.len(), 3);
    assert_eq!(val, Err(StdError::NotFound));
    assert_eq!(queue.pop_front(&mut store).unwrap().map(|ozc| ozc.into_inner()), Some(1));
    assert_eq!(queue.len(), 2);

    assert_eq!(queue.pop_back(&mut store).unwrap().map(|ozc| ozc.into_inner()), Some(3));
    assert_eq!(queue.len(), 1);
    assert_eq!(queue.get(&store, 0).unwrap().map(|ozc| ozc.into_inner()), Some(2));
}

#[test]
fn queue() {
    let mut store = GlobalStorage::new();
    let mut queue = StoredVecDeque::<u16>::new(&store, NAMESPACE);

    queue.push_front(&mut store, &69).unwrap();
    queue.push_back(&mut store, &420).unwrap();
    queue.push_front(&mut store, &1234).unwrap();
    queue.pop_back(&mut store).unwrap();

    let queue_: VecDeque<u16> = collect_queue(queue.iter(), &store);
    let sample = VecDeque::<u16>::from([1234, 69]);

    assert_eq!(queue_, sample);
    assert_eq!(Some(OZeroCopy::from_inner(1234)), queue.get_front(&store).unwrap());
    assert_eq!(Some(OZeroCopy::from_inner(1234)), queue.get(&store, 0).unwrap());
    assert_eq!(Some(OZeroCopy::from_inner(69)), queue.get_back(&store).unwrap());
    assert_eq!(Some(69), queue.get(&store, 1).unwrap().map(OZeroCopy::into_inner));

    queue.set(&mut store, 0, &69).unwrap();

    assert_eq!(Some(OZeroCopy::from_inner(69)), queue.get(&store, 0).unwrap());

    queue.set_front(&mut store, &420).unwrap();
    queue.set_back(&mut store, &69).unwrap();
    assert_eq!(Some(OZeroCopy::from_inner(420)), queue.get_front(&store).unwrap());
    assert_eq!(Some(OZeroCopy::from_inner(69)), queue.get_back(&store).unwrap());
    let ends = queue.ends();

    assert!(queue.swap(&mut store, ends.front, ends.back).is_err());

    queue.clear(&mut store, true);
    assert!(queue.set_front(&mut store, &69).is_err());
    assert_eq!(None, queue.get_front(&store).unwrap());
    assert_eq!(None, queue.pop_front(&mut store).unwrap());
    assert_eq!(None, queue.get_back(&store).unwrap());
    assert_eq!(None, queue.pop_back(&mut store).unwrap());

    assert_eq!(u32::MAX, queue.capacity());
}

#[test]
fn queue_rm() {
    let mut store = GlobalStorage::new();
    let mut queue = StoredVecDeque::<u16>::new(&store, NAMESPACE);

    queue.push_front(&mut store, &69).unwrap();
    queue.push_back(&mut store, &420).unwrap();
    queue.push_front(&mut store, &1234).unwrap();
    queue.pop_back(&mut store).unwrap();
    queue.pop_front(&mut store).unwrap();

    storage_remove(&mut store, NAMESPACE);
    assert!(!storage_has(&store, NAMESPACE));
}

#[test]
fn wanted_behavior_question_mark() {
    let mut store = GlobalStorage::new();
    let mut queue = StoredVecDeque::<u16>::new(&store, NAMESPACE);

    queue.push_front(&mut store, &69).unwrap();
    queue.push_back(&mut store, &420).unwrap();

    storage_remove(&mut store, NAMESPACE);

    assert!(!storage_has(&store, NAMESPACE));
    let mut iter = queue.into_iter();
    let mut count = 0;
    while let Some(item) = iter.next(&store) {
        assert!(item.is_ok());
        count += 1;
    }
    assert_eq!(count, 2);
}

#[test]
fn queue_from_vec() {
    let mut store = GlobalStorage::new();
    let mut vec = StoredVec::<u16>::new(&store, NAMESPACE);

    vec.push(&mut store, &69).unwrap();
    vec.push(&mut store, &420).unwrap();
    drop(vec);

    let queue = StoredVecDeque::<u16>::new(&store, NAMESPACE);
    let queue = collect_queue(queue.into_iter(), &store);
    assert_eq!(queue, VecDeque::from([69, 420]));
}

#[test]
fn queue_from_queue() {
    let mut store = GlobalStorage::new();
    let mut queue = StoredVecDeque::<u8>::new(&store, NAMESPACE);

    queue.push_back(&mut store, &69).unwrap();
    drop(queue);

    let queue = StoredVecDeque::<u8>::new(&store, NAMESPACE);
    let queue = collect_queue(queue.into_iter(), &store);
    assert_eq!(queue, VecDeque::from([69]));
}

#[test]
fn queue_length() {
    let mut store = GlobalStorage::new();
    let mut queue = StoredVecDeque::<u16>::new(&store, NAMESPACE);

    queue.push_back(&mut store, &69).unwrap();
    queue.push_back(&mut store, &420).unwrap();

    drop(queue);

    let queue = StoredVecDeque::<u16>::new(&store, NAMESPACE);
    let len = queue.len();
    assert_eq!(len, 2);
}

#[test]
fn queue_length_back_and_front() {
    let mut store = GlobalStorage::new();
    let mut queue = StoredVecDeque::<u16>::new(&store, NAMESPACE);

    queue.push_back(&mut store, &69).unwrap();
    queue.push_front(&mut store, &420).unwrap();

    drop(queue);

    let queue = StoredVecDeque::<u16>::new(&store, NAMESPACE);
    let len = queue.len();
    assert_eq!(len, 2);

    let queue = collect_queue(queue.iter(), &store);
    assert_eq!(queue.len(), 2);
}

#[test]
fn clean_queue() {
    let mut store = GlobalStorage::new();
    let mut queue = StoredVecDeque::<u16>::new(&store, NAMESPACE);

    queue.push_back(&mut store, &69).unwrap();
    queue.push_front(&mut store, &420).unwrap();
    queue.clear(&mut store, true);
    drop(queue);

    let mut queue = StoredVecDeque::<u16>::new(&store, NAMESPACE);
    let q = collect_queue(queue.iter(), &store);
    assert_eq!(q.len(), 0);

    queue.push_back(&mut store, &69).unwrap();
    queue.push_front(&mut store, &420).unwrap();
    queue.clear(&mut store, false);
    drop(queue);

    let mut queue = StoredVecDeque::<u16>::new(&store, NAMESPACE);
    let q = collect_queue(queue.iter(), &store);
    assert_eq!(q.len(), 0);

    queue.push_back(&mut store, &69).unwrap();
    queue.push_front(&mut store, &420).unwrap();
    drop(queue);

    let mut queue = StoredVecDeque::<u16>::new(&store, NAMESPACE);
    queue.clear(&mut store, false);
    let q = collect_queue(queue.iter(), &store);
    assert_eq!(q.len(), 0);

    queue.push_back(&mut store, &69).unwrap();
    queue.push_front(&mut store, &420).unwrap();
    drop(queue);

    let mut queue = StoredVecDeque::<u16>::new(&store, NAMESPACE);
    queue.clear(&mut store, true);
    let q = collect_queue(queue.iter(), &store);
    assert_eq!(q.len(), 0);
}

#[test]
fn deque_example_scenario() {
    let mut store = GlobalStorage::new();
    let mut queue = StoredVecDeque::<u32>::new(&store, b"q");
    queue.push_back(&mut store, &1).unwrap();
    queue.push_back(&mut store, &2).unwrap();
    queue.push_back(&mut store, &3).unwrap();
    assert_eq!(queue.pop_back(&mut store).unwrap().map(OZeroCopy::into_inner), Some(3));
    queue.push_front(&mut store, &0).unwrap();
    assert_eq!(collect_queue(queue.iter(), &store), VecDeque::from([0, 1, 2]));
    assert_eq!(queue.get(&store, 0).unwrap().map(OZeroCopy::into_inner), Some(0));
    assert_eq!(queue.get(&store, 2).unwrap().map(OZeroCopy::into_inner), Some(2));
    assert_eq!(queue.get(&store, 3), Err(StdError::NotFound));
    assert_eq!(queue.set(&mut store, 3, &9), Err(StdError::NotFound));
    assert_eq!(queue.len(), 3);
    let ends = queue.ends();
    assert_eq!(ends, QueueEnds { front: u32::MAX, back: 2 });
    assert_eq!(queue.len(), ends.back.wrapping_sub(ends.front));
}

#[test]
fn ring_upgrade_from_vector() {
    let mut store = GlobalStorage::new();
    let mut vec = StoredVec::<u16>::new(&store, b"ring");
    vec.extend(&mut store, vec![7, 8, 9]).unwrap();
    let queue = StoredVecDeque::<u16>::new(&store, b"ring");
    assert_eq!(queue.ends(), QueueEnds { front: 0, back: 3 });
    assert_eq!(queue.len(), 3);
    assert_eq!(collect_queue(queue.iter(), &store), VecDeque::from([7, 8, 9]));
}

#[test]
fn deque_matches_reference_deque() {
    let mut store = GlobalStorage::new();
    let mut queue = StoredVecDeque::<u16>::new(&store, NAMESPACE);
    let mut reference = VecDeque::<u16>::new();
    let script: [(u8, u16); 12] = [
        (0, 5), (1, 6), (1, 7), (2, 0), (0, 8), (3, 0), (3, 0), (1, 9), (0, 10), (2, 0), (3, 0), (3, 0),
    ];
    for (op, value) in script {
        match op {
            0 => {
                queue.push_back(&mut store, &value).unwrap();
                reference.push_back(value);
            }
            1 => {
                queue.push_front(&mut store, &value).unwrap();
                reference.push_front(value);
            }
            2 => {
                let got = queue.pop_back(&mut store).unwrap().map(OZeroCopy::into_inner);
                assert_eq!(got, reference.pop_back());
            }
            _ => {
                let got = queue.pop_front(&mut store).unwrap().map(OZeroCopy::into_inner);
                assert_eq!(got, reference.pop_front());
            }
        }
        assert_eq!(queue.len() as usize, reference.len());
        let ends = queue.ends();
        assert_eq!(queue.len(), ends.back.wrapping_sub(ends.front));
        assert_eq!(collect_queue(queue.iter(), &store), reference);
    }
}

#[test]
fn full_ring_rejects_push() {
    let mut store = GlobalStorage::new();
    // cursors one slot apart the long way round: all slots but one in use
    storage_write(&mut store, b"full", &[5, 0, 0, 0, 4, 0, 0, 0]);
    let mut queue = StoredVecDeque::<u8>::new(&store, b"full");
    assert_eq!(queue.ends(), QueueEnds { front: 5, back: 4 });
    assert_eq!(queue.len(), u32::MAX);
    assert_eq!(queue.push_back(&mut store, &1), Err(StdError::Overflow));
    assert_eq!(queue.push_front(&mut store, &1), Err(StdError::Overflow));
    assert_eq!(storage_read(&store, b"full"), Some(vec![5, 0, 0, 0, 4, 0, 0, 0]));
}

#[test]
fn queue_ends_layout() {
    let mut store = GlobalStorage::new();
    let mut queue = StoredVecDeque::<u8>::new(&store, b"e");
    queue.push_back(&mut store, &1).unwrap();
    queue.push_front(&mut store, &2).unwrap();
    assert_eq!(storage_read(&store, b"e"), Some(vec![255, 255, 255, 255, 1, 0, 0, 0]));
    assert_eq!(storage_read(&store, &[b'e', 255, 255, 255, 255]), Some(vec![2]));
    assert_eq!(storage_read(&store, &[b'e', 0, 0, 0, 0]), Some(vec![1]));
}

#[test]
fn queue_get_tells_out_of_range_from_an_empty_slot() {
    let mut store = GlobalStorage::new();
    let mut queue = StoredVecDeque::<u16>::new(&store, b"g");
    assert_eq!(queue.get(&store, 0), Err(StdError::NotFound));
    queue.push_back(&mut store, &7).unwrap();
    queue.push_front(&mut store, &6).unwrap();

    assert_eq!(queue.get(&store, 0).unwrap().map(OZeroCopy::into_inner), Some(6));
    assert_eq!(queue.get(&store, 1).unwrap().map(OZeroCopy::into_inner), Some(7));
    assert_eq!(queue.get(&store, 2), Err(StdError::NotFound));

    // the slot at the back is emptied behind the queue's back
    storage_remove(&mut store, &[b'g', 0, 0, 0, 0]);
    assert_eq!(queue.len(), 2);
    assert_eq!(queue.get(&store, 1), Ok(None));
}
