//! A double-ended queue over the store: a ring of `2^32` slots, of which
//! those from the front cursor on and before the back cursor are in use.
//! The two cursors are kept under the bare namespace.

use vstd::prelude::*;
use crate::bytes::{
    le_bytes, le_decode, le_encode, le_value, lemma_le_bytes_len, lemma_le_value_bound,
    lemma_le_value_of_bytes, lemma_pow256_values,
};
use crate::error::StdError;
use super::base::{storage_read, storage_write_item, GlobalStorage, StorageView};
use super::map::StoredMap;
use super::vec::{
    is_slot, lemma_slot_key, lemma_slots_indexed, ring_back, ring_distance, ring_forward, slot,
    slot_index, slot_value, u32_from_le_bytes_or_zero, with_slot, without_slot,
    IndexedStoredItemIter, IndexedView,
};
use super::{OZeroCopy, SerializableItem};

verus! {

/// The two cursors of a queue: the slot of the first element, and the slot
/// after that of the last one. Both run in a ring of `2^32` positions.
#[derive(Debug, Default, Clone, Copy, PartialEq, Eq, Structural)]
pub struct QueueEnds {
    pub front: u32,
    pub back: u32,
}

impl View for QueueEnds {
    type V = QueueEnds;

    open spec fn view(&self) -> QueueEnds {
        *self
    }
}

/// The eight bytes that stand for the cursors: the front and then the
/// back, each in four little-endian bytes.
pub open spec fn ends_bytes(ends: QueueEnds) -> Seq<u8> {
    le_bytes(ends.front as nat, 4) + le_bytes(ends.back as nat, 4)
}

impl SerializableItem for QueueEnds {
    open spec fn encoding(value: QueueEnds) -> Option<Seq<u8>> {
        Some(ends_bytes(value))
    }

    open spec fn decoding(data: Seq<u8>) -> Option<QueueEnds> {
        if data.len() == 8 {
            Some(
                QueueEnds {
                    front: le_value(data.subrange(0, 4)) as u32,
                    back: le_value(data.subrange(4, 8)) as u32,
                },
            )
        } else {
            None
        }
    }

    proof fn lemma_round_trip(value: QueueEnds) {
        let data = ends_bytes(value);
        lemma_pow256_values();
        lemma_le_bytes_len(value.front as nat, 4);
        lemma_le_bytes_len(value.back as nat, 4);
        lemma_le_value_of_bytes(value.front as nat, 4);
        lemma_le_value_of_bytes(value.back as nat, 4);
        assert(data.subrange(0, 4) =~= le_bytes(value.front as nat, 4));
        assert(data.subrange(4, 8) =~= le_bytes(value.back as nat, 4));
    }

    fn serialize_to_owned(&self) -> (result: Result<Vec<u8>, StdError>) {
        let mut bytes = le_encode(self.front as u128, 4);
        let mut back = le_encode(self.back as u128, 4);
        bytes.append(&mut back);
        Ok(bytes)
    }

    fn serialize_as_ref(&self) -> (result: Option<&[u8]>) {
        None
    }

    fn deserialize_to_owned(data: &[u8]) -> (result: Result<Self, StdError>) {
        if data.len() != 8 {
            return Err(StdError::ParseErr);
        }
        let front_bytes = vstd::slice::slice_subrange(data, 0, 4);
        let back_bytes = vstd::slice::slice_subrange(data, 4, 8);
        proof {
            lemma_le_value_bound(front_bytes@);
            lemma_le_value_bound(back_bytes@);
            lemma_pow256_values();
        }
        Ok(QueueEnds { front: le_decode(front_bytes) as u32, back: le_decode(back_bytes) as u32 })
    }

    fn deserialize_as_ref(data: &[u8]) -> (result: Option<&Self>) {
        None
    }
}

/// The cursors that the records keep for the queue under `namespace`. Four
/// bytes are the length of a vector, which becomes a queue from slot zero
/// to that length; eight bytes are the two cursors; anything else, or no
/// record, is the empty queue at slot zero.
pub open spec fn stored_ends(records: Map<Seq<u8>, Seq<u8>>, namespace: Seq<u8>) -> QueueEnds {
    if !records.contains_key(namespace) {
        QueueEnds { front: 0, back: 0 }
    } else if records[namespace].len() == 4 {
        QueueEnds { front: 0, back: le_value(records[namespace]) as u32 }
    } else if records[namespace].len() == 8 {
        QueueEnds {
            front: le_value(records[namespace].subrange(0, 4)) as u32,
            back: le_value(records[namespace].subrange(4, 8)) as u32,
        }
    } else {
        QueueEnds { front: 0, back: 0 }
    }
}

/// The store with `ends` kept as the cursors of the queue under `namespace`.
pub open spec fn with_ends(s: StorageView, namespace: Seq<u8>, ends: QueueEnds) -> StorageView {
    StorageView { records: s.records.insert(namespace, ends_bytes(ends)), ..s }
}

/// `key` is the key of a slot in the part of the ring from `front` on and
/// before `back`.
pub open spec fn is_ring_slot_between(
    namespace: Seq<u8>,
    front: u32,
    back: u32,
    key: Seq<u8>,
) -> bool {
    is_slot(namespace, key) && slot_index(namespace, key) <= u32::MAX && ring_distance(
        front,
        slot_index(namespace, key) as u32,
    ) < ring_distance(front, back)
}

/// The store without the slots of the ring from `front` on and before
/// `back`.
pub open spec fn without_ring_slots(
    s: StorageView,
    namespace: Seq<u8>,
    front: u32,
    back: u32,
) -> StorageView {
    StorageView {
        records: Map::new(
            |key: Seq<u8>|
                s.records.contains_key(key) && !is_ring_slot_between(namespace, front, back, key),
            |key: Seq<u8>| s.records[key],
        ),
        ..s
    }
}

/// The model of a queue: its namespace and the cursors that it caches.
pub struct QueueView {
    pub namespace: Seq<u8>,
    pub ends: QueueEnds,
}

impl QueueView {
    /// The number of elements: the steps from the front forward to the
    /// back.
    pub open spec fn len(self) -> nat {
        ring_distance(self.ends.front, self.ends.back)
    }

    /// The slot of the element at `index`, counted from the front.
    pub open spec fn raw_index(self, index: u32) -> u32 {
        ring_forward(self.ends.front, index as nat)
    }

    /// The slot of the last element.
    pub open spec fn last(self) -> u32 {
        ring_back(self.ends.back, 1)
    }

    /// The queue has room for no further element: one slot of the ring
    /// stays unused, so that a full ring differs from an empty one.
    pub open spec fn is_full(self) -> bool {
        ring_forward(self.ends.back, 1) == self.ends.front
    }
}

/// A double-ended queue of values of type `V`, kept in the store under a
/// namespace. The queue caches its cursors, which it reads from the store
/// when it is made.
pub struct StoredVecDeque<V: SerializableItem> {
    namespace: &'static [u8],
    map: StoredMap<u32, V>,
    ends: QueueEnds,
}

impl<V: SerializableItem> View for StoredVecDeque<V> {
    type V = QueueView;

    closed spec fn view(&self) -> QueueView {
        QueueView { namespace: self.namespace@, ends: self.ends }
    }
}

impl<V: SerializableItem> StoredVecDeque<V> {
    /// The parts of the queue agree on the namespace. Every queue that
    /// `new` has made is well-formed, and every method keeps it so.
    pub closed spec fn wf(&self) -> bool {
        self.map.namespace() == self.namespace@
    }

    /// The queue under `namespace`, with the cursors that the store keeps
    /// for it. The length of a vector under the namespace is read as a
    /// queue of the vector's elements.
    pub fn new(store: &GlobalStorage, namespace: &'static [u8]) -> (queue: Self)
        ensures
            queue.wf(),
            queue@ == (QueueView {
                namespace: namespace@,
                ends: stored_ends(store@.records, namespace@),
            }),
    {
        let ends = match storage_read(store, namespace) {
            Some(data) => {
                if data.len() == 4 {
                    QueueEnds { front: 0, back: u32_from_le_bytes_or_zero(data.as_slice()) }
                } else {
                    match QueueEnds::deserialize_to_owned(data.as_slice()) {
                        Ok(ends) => ends,
                        Err(_) => QueueEnds { front: 0, back: 0 },
                    }
                }
            },
            None => QueueEnds { front: 0, back: 0 },
        };
        Self { namespace, map: StoredMap::new(namespace), ends }
    }

    /// Caches `value` as the cursors and keeps it in the store.
    fn set_ends(&mut self, store: &mut GlobalStorage, value: QueueEnds)
        requires
            old(self).wf(),
        ensures
            final(self).wf(),
            final(self)@ == (QueueView { ends: value, ..old(self)@ }),
            final(store)@ == with_ends(old(store)@, old(self)@.namespace, value),
    {
        self.ends = value;
        proof {
            lemma_le_bytes_len(value.front as nat, 4);
        }
        let written = storage_write_item(store, self.namespace, &value);
        assert(written.is_ok());
    }

    /// The cursors of the queue.
    pub fn ends(&self) -> (ends: QueueEnds)
        ensures
            ends == self@.ends,
    {
        self.ends
    }

    /// The slot of the element at `index`, counted from the front.
    fn to_raw_index(&self, index: u32) -> (raw: u32)
        ensures
            raw == self@.raw_index(index),
    {
        index.wrapping_add(self.ends().front)
    }

    /// The number of elements.
    pub fn len(&self) -> (len: u32)
        ensures
            len == self@.len(),
    {
        let ends = self.ends();
        ends.back.wrapping_sub(ends.front)
    }

    /// The element at `index`, counted from the front. An index that is not
    /// below the length is refused as not found, whatever the slot holds.
    /// Below the length the result is `Ok(None)` where the slot is empty,
    /// and an error where the bytes in the slot do not parse.
    pub fn get(&self, store: &GlobalStorage, index: u32) -> (result: Result<
        Option<OZeroCopy<V>>,
        StdError,
    >)
        requires
            self.wf(),
        ensures
            match result {
                Ok(None) => index < self@.len() && slot_value::<V>(
                    store@.records,
                    self@.namespace,
                    self@.raw_index(index),
                ).is_none(),
                Ok(Some(cell)) => index < self@.len() && slot_value::<V>(
                    store@.records,
                    self@.namespace,
                    self@.raw_index(index),
                ) == Some(Some(cell@)),
                Err(error) => if index >= self@.len() {
                    error == StdError::NotFound
                } else {
                    slot_value::<V>(
                        store@.records,
                        self@.namespace,
                        self@.raw_index(index),
                    ) == Some(None::<V::V>) && error == StdError::ParseErr
                },
            },
    {
        if index >= self.len() {
            return Err(StdError::NotFound);
        }
        let raw = self.to_raw_index(index);
        self.map.get(store, &raw)
    }

    /// Replaces the element at `index`, counted from the front. An index
    /// that is not below the length is refused as not found.
    pub fn set(&self, store: &mut GlobalStorage, index: u32, value: &V) -> (result: Result<
        (),
        StdError,
    >)
        requires
            self.wf(),
            V::encoding(value@) matches Some(bytes) ==> bytes.len() > 0,
        ensures
            match result {
                Ok(()) => index < self@.len() && V::encoding(value@).is_some() && final(store)@
                    == with_slot(
                    old(store)@,
                    self@.namespace,
                    self@.raw_index(index),
                    V::encoding(value@).unwrap(),
                ),
                Err(error) => final(store)@ == old(store)@ && (if index >= self@.len() {
                    error == StdError::NotFound
                } else {
                    V::encoding(value@).is_none() && error == StdError::SerializeErr
                }),
            },
    {
        if index >= self.len() {
            return Err(StdError::NotFound);
        }
        let raw = self.to_raw_index(index);
        self.map.set(store, &raw, value)
    }

    /// Exchanges the bytes of the elements at `index1` and `index2`,
    /// counted from the front, without parsing them. An empty slot is
    /// refused as not found, and nothing is exchanged.
    pub fn swap(&self, store: &mut GlobalStorage, index1: u32, index2: u32) -> (result: Result<
        (),
        StdError,
    >)
        requires
            self.wf(),
        ensures
            match result {
                Ok(()) => {
                    &&& slot(
                        old(store)@.records,
                        self@.namespace,
                        self@.raw_index(index1),
                    ).is_some()
                    &&& slot(
                        old(store)@.records,
                        self@.namespace,
                        self@.raw_index(index2),
                    ).is_some()
                    &&& final(store)@ == with_slot(
                        with_slot(
                            old(store)@,
                            self@.namespace,
                            self@.raw_index(index1),
                            slot(
                                old(store)@.records,
                                self@.namespace,
                                self@.raw_index(index2),
                            ).unwrap(),
                        ),
                        self@.namespace,
                        self@.raw_index(index2),
                        slot(
                            old(store)@.records,
                            self@.namespace,
                            self@.raw_index(index1),
                        ).unwrap(),
                    )
                },
                Err(error) => {
                    &&& error == StdError::NotFound
                    &&& (slot(
                        old(store)@.records,
                        self@.namespace,
                        self@.raw_index(index1),
                    ).is_none() || slot(
                        old(store)@.records,
                        self@.namespace,
                        self@.raw_index(index2),
                    ).is_none())
                    &&& final(store)@ == old(store)@
                },
            },
    {
        let index1 = self.to_raw_index(index1);
        let index2 = self.to_raw_index(index2);
        let tmp_value = match self.map.get_raw_bytes(store, &index1) {
            Some(bytes) => bytes,
            None => {
                return Err(StdError::NotFound);
            },
        };
        let other = match self.map.get_raw_bytes(store, &index2) {
            Some(bytes) => bytes,
            None => {
                return Err(StdError::NotFound);
            },
        };
        self.map.set_raw_bytes(store, &index1, other.as_slice());
        self.map.set_raw_bytes(store, &index2, tmp_value.as_slice());
        Ok(())
    }

    /// The greatest number of elements that a queue can hold.
    pub fn capacity(&self) -> (capacity: u32)
        ensures
            capacity == u32::MAX,
    {
        u32::MAX
    }

    /// An iterator over the elements, from the front to the back.
    pub fn iter(&self) -> (it: IndexedStoredItemIter<V>)
        ensures
            it@ == (IndexedView {
                namespace: self@.namespace,
                start: self@.ends.front,
                end: self@.ends.back,
            }),
    {
        let ends = self.ends();
        IndexedStoredItemIter::new(self.namespace, ends.front, ends.back)
    }

    /// An iterator over the elements, which takes the place of the queue.
    pub fn into_iter(self) -> (it: IndexedStoredItemIter<V>)
        ensures
            it@ == (IndexedView {
                namespace: self@.namespace,
                start: self@.ends.front,
                end: self@.ends.back,
            }),
    {
        let ends = self.ends();
        IndexedStoredItemIter::new(self.namespace, ends.front, ends.back)
    }

    /// Whether the queue has no element.
    pub fn is_empty(&self) -> (empty: bool)
        ensures
            empty == (self@.ends.front == self@.ends.back),
            empty == (self@.len() == 0),
    {
        self.ends.front == self.ends.back
    }

    /// Empties the queue: both cursors return to slot zero. Unless `dirty`,
    /// the slots in use are emptied too.
    pub fn clear(&mut self, store: &mut GlobalStorage, dirty: bool)
        requires
            old(self).wf(),
        ensures
            final(self).wf(),
            final(self)@ == (QueueView { ends: QueueEnds { front: 0, back: 0 }, ..old(self)@ }),
            final(store)@ == with_ends(
                if dirty {
                    old(store)@
                } else {
                    without_ring_slots(
                        old(store)@,
                        old(self)@.namespace,
                        old(self)@.ends.front,
                        old(self)@.ends.back,
                    )
                },
                old(self)@.namespace,
                QueueEnds { front: 0, back: 0 },
            ),
    {
        if !dirty {
            let ghost ns = self@.namespace;
            let ghost first = self@.ends.front;
            let ghost back = self@.ends.back;
            assert(store@.records =~= without_ring_slots(old(store)@, ns, first, first).records);
            while self.ends.front != self.ends.back
                invariant
                    self.wf(),
                    self@.namespace == ns,
                    self@.ends.back == back,
                    ns == old(self)@.namespace,
                    first == old(self)@.ends.front,
                    back == old(self)@.ends.back,
                    ring_distance(first, self@.ends.front) + ring_distance(self@.ends.front, back)
                        == ring_distance(first, back),
                    store@ == without_ring_slots(old(store)@, ns, first, self@.ends.front),
                decreases ring_distance(self@.ends.front, back),
            {
                let front = self.ends.front;
                self.map.remove(store, &front);
                self.ends.front = front.wrapping_add(1);
                proof {
                    lemma_slot_key(ns, front);
                    lemma_slots_indexed(ns);
                    assert(store@.records =~= without_ring_slots(
                        old(store)@,
                        ns,
                        first,
                        self@.ends.front,
                    ).records);
                }
            }
        }
        self.set_ends(store, QueueEnds { front: 0, back: 0 });
    }
}

/// The store after an element with the encoding `bytes` is appended at the
/// back of the queue `q`: the slot at the back cursor is filled, and the
/// back cursor stands one slot further.
pub open spec fn pushed_back(s: StorageView, q: QueueView, bytes: Seq<u8>) -> StorageView {
    with_ends(
        with_slot(s, q.namespace, q.ends.back, bytes),
        q.namespace,
        QueueEnds { back: ring_forward(q.ends.back, 1), ..q.ends },
    )
}

/// The store after an element with the encoding `bytes` is put before the
/// front of the queue `q`: the front cursor stands one slot back, and the
/// slot there is filled.
pub open spec fn pushed_front(s: StorageView, q: QueueView, bytes: Seq<u8>) -> StorageView {
    with_ends(
        with_slot(s, q.namespace, ring_back(q.ends.front, 1), bytes),
        q.namespace,
        QueueEnds { front: ring_back(q.ends.front, 1), ..q.ends },
    )
}

/// The store after the last element of the queue `q` is taken off: the
/// back cursor stands one slot back, and the slot there is emptied.
pub open spec fn popped_back(s: StorageView, q: QueueView) -> StorageView {
    with_ends(
        without_slot(s, q.namespace, ring_back(q.ends.back, 1)),
        q.namespace,
        QueueEnds { back: ring_back(q.ends.back, 1), ..q.ends },
    )
}

/// The store after the first element of the queue `q` is taken off: the
/// slot at the front cursor is emptied, and the front cursor stands one
/// slot further.
pub open spec fn popped_front(s: StorageView, q: QueueView) -> StorageView {
    with_ends(
        without_slot(s, q.namespace, q.ends.front),
        q.namespace,
        QueueEnds { front: ring_forward(q.ends.front, 1), ..q.ends },
    )
}

impl<V: SerializableItem> StoredVecDeque<V> {
    /// The last element, or `Ok(None)` for an empty queue or an empty slot.
    pub fn get_back(&self, store: &GlobalStorage) -> (result: Result<
        Option<OZeroCopy<V>>,
        StdError,
    >)
        requires
            self.wf(),
        ensures
            match result {
                Ok(None) => self@.len() == 0 || slot_value::<V>(
                    store@.records,
                    self@.namespace,
                    self@.last(),
                ).is_none(),
                Ok(Some(cell)) => self@.len() > 0 && slot_value::<V>(
                    store@.records,
                    self@.namespace,
                    self@.last(),
                ) == Some(Some(cell@)),
                Err(error) => self@.len() > 0 && slot_value::<V>(
                    store@.records,
                    self@.namespace,
                    self@.last(),
                ) == Some(None::<V::V>) && error == StdError::ParseErr,
            },
    {
        if self.is_empty() {
            return Ok(None);
        }
        let last = self.ends.back.wrapping_sub(1);
        self.map.get(store, &last)
    }

    /// Replaces the last element. An empty queue refuses as not found.
    pub fn set_back(&self, store: &mut GlobalStorage, value: &V) -> (result: Result<(), StdError>)
        requires
            self.wf(),
            V::encoding(value@) matches Some(bytes) ==> bytes.len() > 0,
        ensures
            match result {
                Ok(()) => self@.len() > 0 && V::encoding(value@).is_some() && final(store)@
                    == with_slot(
                    old(store)@,
                    self@.namespace,
                    self@.last(),
                    V::encoding(value@).unwrap(),
                ),
                Err(error) => final(store)@ == old(store)@ && (if self@.len() == 0 {
                    error == StdError::NotFound
                } else {
                    V::encoding(value@).is_none() && error == StdError::SerializeErr
                }),
            },
    {
        if self.is_empty() {
            return Err(StdError::NotFound);
        }
        let last = self.ends.back.wrapping_sub(1);
        self.map.set(store, &last, value)
    }

    /// Takes the last element off. An empty queue gives `Ok(None)` and
    /// stays as it is. Bytes that do not parse are an error, and the queue
    /// stays as it is. Otherwise the last slot is emptied and the back
    /// cursor moves back, also where that slot held nothing.
    pub fn pop_back(&mut self, store: &mut GlobalStorage) -> (result: Result<
        Option<OZeroCopy<V>>,
        StdError,
    >)
        requires
            old(self).wf(),
        ensures
            final(self).wf(),
            old(self)@.len() == 0 ==> (result matches Ok(None)) && final(self)@ == old(self)@
                && final(store)@ == old(store)@,
            old(self)@.len() > 0 ==> match result {
                Ok(last) => {
                    &&& match last {
                        Some(cell) => slot_value::<V>(
                            old(store)@.records,
                            old(self)@.namespace,
                            old(self)@.last(),
                        ) == Some(Some(cell@)),
                        None => slot_value::<V>(
                            old(store)@.records,
                            old(self)@.namespace,
                            old(self)@.last(),
                        ).is_none(),
                    }
                    &&& final(self)@ == (QueueView {
                        ends: QueueEnds { back: old(self)@.last(), ..old(self)@.ends },
                        ..old(self)@
                    })
                    &&& final(store)@ == popped_back(old(store)@, old(self)@)
                },
                Err(error) => {
                    &&& slot_value::<V>(
                        old(store)@.records,
                        old(self)@.namespace,
                        old(self)@.last(),
                    ) == Some(None::<V::V>)
                    &&& error == StdError::ParseErr
                    &&& final(self)@ == old(self)@
                    &&& final(store)@ == old(store)@
                },
            },
    {
        if self.is_empty() {
            return Ok(None);
        }
        let mut ends = self.ends();
        ends.back = self.ends.back.wrapping_sub(1);
        let result = match self.map.get(store, &ends.back) {
            Ok(result) => result,
            Err(error) => {
                return Err(error);
            },
        };
        self.map.remove(store, &ends.back);
        self.set_ends(store, ends);
        Ok(result)
    }

    /// Appends `value` at the back. A queue that is full, with all slots of
    /// the ring but one in use, refuses with `Overflow` and stays as it is.
    pub fn push_back(&mut self, store: &mut GlobalStorage, value: &V) -> (result: Result<
        (),
        StdError,
    >)
        requires
            old(self).wf(),
            V::encoding(value@) matches Some(bytes) ==> bytes.len() > 0,
        ensures
            final(self).wf(),
            match result {
                Ok(()) => {
                    &&& !old(self)@.is_full()
                    &&& V::encoding(value@).is_some()
                    &&& final(self)@ == (QueueView {
                        ends: QueueEnds {
                            back: ring_forward(old(self)@.ends.back, 1),
                            ..old(self)@.ends
                        },
                        ..old(self)@
                    })
                    &&& final(store)@ == pushed_back(
                        old(store)@,
                        old(self)@,
                        V::encoding(value@).unwrap(),
                    )
                },
                Err(error) => {
                    &&& final(self)@ == old(self)@
                    &&& final(store)@ == old(store)@
                    &&& if old(self)@.is_full() {
                        error == StdError::Overflow
                    } else {
                        V::encoding(value@).is_none() && error == StdError::SerializeErr
                    }
                },
            },
    {
        let mut ends = self.ends();
        if ends.back.wrapping_add(1) == ends.front {
            return Err(StdError::Overflow);
        }
        match self.map.set(store, &ends.back, value) {
            Ok(()) => {},
            Err(error) => {
                return Err(error);
            },
        }
        ends.back = ends.back.wrapping_add(1);
        self.set_ends(store, ends);
        Ok(())
    }

    /// The first element, or `Ok(None)` for an empty queue or an empty
    /// slot.
    pub fn get_front(&self, store: &GlobalStorage) -> (result: Result<
        Option<OZeroCopy<V>>,
        StdError,
    >)
        requires
            self.wf(),
        ensures
            match result {
                Ok(None) => self@.len() == 0 || slot_value::<V>(
                    store@.records,
                    self@.namespace,
                    self@.ends.front,
                ).is_none(),
                Ok(Some(cell)) => self@.len() > 0 && slot_value::<V>(
                    store@.records,
                    self@.namespace,
                    self@.ends.front,
                ) == Some(Some(cell@)),
                Err(error) => self@.len() > 0 && slot_value::<V>(
                    store@.records,
                    self@.namespace,
                    self@.ends.front,
                ) == Some(None::<V::V>) && error == StdError::ParseErr,
            },
    {
        if self.is_empty() {
            return Ok(None);
        }
        let first = self.ends.front;
        self.map.get(store, &first)
    }

    /// Replaces the first element. An empty queue refuses as not found.
    pub fn set_front(&self, store: &mut GlobalStorage, value: &V) -> (result: Result<(), StdError>)
        requires
            self.wf(),
            V::encoding(value@) matches Some(bytes) ==> bytes.len() > 0,
        ensures
            match result {
                Ok(()) => self@.len() > 0 && V::encoding(value@).is_some() && final(store)@
                    == with_slot(
                    old(store)@,
                    self@.namespace,
                    self@.ends.front,
                    V::encoding(value@).unwrap(),
                ),
                Err(error) => final(store)@ == old(store)@ && (if self@.len() == 0 {
                    error == StdError::NotFound
                } else {
                    V::encoding(value@).is_none() && error == StdError::SerializeErr
                }),
            },
    {
        if self.is_empty() {
            return Err(StdError::NotFound);
        }
        let first = self.ends.front;
        self.map.set(store, &first, value)
    }

    /// Takes the first element off. An empty queue gives `Ok(None)` and
    /// stays as it is. Bytes that do not parse are an error, and the queue
    /// stays as it is. Otherwise the first slot is emptied and the front
    /// cursor moves on, also where that slot held nothing.
    pub fn pop_front(&mut self, store: &mut GlobalStorage) -> (result: Result<
        Option<OZeroCopy<V>>,
        StdError,
    >)
        requires
            old(self).wf(),
        ensures
            final(self).wf(),
            old(self)@.len() == 0 ==> (result matches Ok(None)) && final(self)@ == old(self)@
                && final(store)@ == old(store)@,
            old(self)@.len() > 0 ==> match result {
                Ok(first) => {
                    &&& match first {
                        Some(cell) => slot_value::<V>(
                            old(store)@.records,
                            old(self)@.namespace,
                            old(self)@.ends.front,
                        ) == Some(Some(cell@)),
                        None => slot_value::<V>(
                            old(store)@.records,
                            old(self)@.namespace,
                            old(self)@.ends.front,
                        ).is_none(),
                    }
                    &&& final(self)@ == (QueueView {
                        ends: QueueEnds {
                            front: ring_forward(old(self)@.ends.front, 1),
                            ..old(self)@.ends
                        },
                        ..old(self)@
                    })
                    &&& final(store)@ == popped_front(old(store)@, old(self)@)
                },
                Err(error) => {
                    &&& slot_value::<V>(
                        old(store)@.records,
                        old(self)@.namespace,
                        old(self)@.ends.front,
                    ) == Some(None::<V::V>)
                    &&& error == StdError::ParseErr
                    &&& final(self)@ == old(self)@
                    &&& final(store)@ == old(store)@
                },
            },
    {
        if self.is_empty() {
            return Ok(None);
        }
        let mut ends = self.ends();
        let result = match self.map.get(store, &ends.front) {
            Ok(result) => result,
            Err(error) => {
                return Err(error);
            },
        };
        self.map.remove(store, &ends.front);
        ends.front = ends.front.wrapping_add(1);
        self.set_ends(store, ends);
        Ok(result)
    }

    /// Puts `value` before the front. A queue that is full, with all slots
    /// of the ring but one in use, refuses with `Overflow` and stays as it
    /// is.
    pub fn push_front(&mut self, store: &mut GlobalStorage, value: &V) -> (result: Result<
        (),
        StdError,
    >)
        requires
            old(self).wf(),
            V::encoding(value@) matches Some(bytes) ==> bytes.len() > 0,
        ensures
            final(self).wf(),
            match result {
                Ok(()) => {
                    &&& !old(self)@.is_full()
                    &&& V::encoding(value@).is_some()
                    &&& final(self)@ == (QueueView {
                        ends: QueueEnds {
                            front: ring_back(old(self)@.ends.front, 1),
                            ..old(self)@.ends
                        },
                        ..old(self)@
                    })
                    &&& final(store)@ == pushed_front(
                        old(store)@,
                        old(self)@,
                        V::encoding(value@).unwrap(),
                    )
                },
                Err(error) => {
                    &&& final(self)@ == old(self)@
                    &&& final(store)@ == old(store)@
                    &&& if old(self)@.is_full() {
                        error == StdError::Overflow
                    } else {
                        V::encoding(value@).is_none() && error == StdError::SerializeErr
                    }
                },
            },
    {
        let mut ends = self.ends();
        ends.front = ends.front.wrapping_sub(1);
        if ends.front == ends.back {
            return Err(StdError::Overflow);
        }
        match self.map.set(store, &ends.front, value) {
            Ok(()) => {},
            Err(error) => {
                return Err(error);
            },
        }
        self.set_ends(store, ends);
        Ok(())
    }
}

} // verus!
