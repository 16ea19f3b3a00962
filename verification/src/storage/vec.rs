//! A growable array over the store: the elements are the entries of a map
//! keyed by their index, and the length is kept under the bare namespace.

use vstd::prelude::*;
use std::marker::PhantomData;
use crate::bytes::{
    le_bytes, le_decode, le_encode, le_value, lemma_le_value_bound, lemma_pow256_values,
};
use crate::error::StdError;
use super::base::{storage_read, storage_read_item, storage_write, GlobalStorage, StorageView};
use super::map::StoredMap;
use super::{concat_byte_array_pairs, OZeroCopy, SerializableItem};

verus! {

/// The key of the record of the element at `index`: the namespace, then the
/// index in four little-endian bytes.
pub open spec fn slot_key(namespace: Seq<u8>, index: u32) -> Seq<u8> {
    namespace + le_bytes(index as nat, 4)
}

/// The length that the records keep for the vector under `namespace`: the
/// number that the four bytes under the namespace stand for, and zero where
/// there is no such record or it does not have four bytes.
pub open spec fn stored_len(records: Map<Seq<u8>, Seq<u8>>, namespace: Seq<u8>) -> u32 {
    if records.contains_key(namespace) && records[namespace].len() == 4 {
        le_value(records[namespace]) as u32
    } else {
        0
    }
}

/// The store with `len` kept as the length of the vector under `namespace`.
pub open spec fn with_len(s: StorageView, namespace: Seq<u8>, len: u32) -> StorageView {
    StorageView { records: s.records.insert(namespace, le_bytes(len as nat, 4)), ..s }
}

/// The store with `bytes` kept in the slot at `index`.
pub open spec fn with_slot(
    s: StorageView,
    namespace: Seq<u8>,
    index: u32,
    bytes: Seq<u8>,
) -> StorageView {
    StorageView { records: s.records.insert(slot_key(namespace, index), bytes), ..s }
}

/// The store without the slot at `index`.
pub open spec fn without_slot(s: StorageView, namespace: Seq<u8>, index: u32) -> StorageView {
    StorageView { records: s.records.remove(slot_key(namespace, index)), ..s }
}

/// `key` is the key of a slot of the vector under `namespace`: the
/// namespace followed by four bytes.
pub open spec fn is_slot(namespace: Seq<u8>, key: Seq<u8>) -> bool {
    key.len() == namespace.len() + 4 && key.subrange(0, namespace.len() as int) == namespace
}

/// The index of the slot that `key` is the key of.
pub open spec fn slot_index(namespace: Seq<u8>, key: Seq<u8>) -> nat {
    le_value(key.skip(namespace.len() as int))
}

/// `key` is the key of a slot with an index from `from` on and below `to`.
pub open spec fn is_slot_between(namespace: Seq<u8>, from: int, to: int, key: Seq<u8>) -> bool {
    is_slot(namespace, key) && from <= slot_index(namespace, key) < to
}

/// The key of the slot at `index` is the key of a slot, and of that one
/// only; and the namespace itself is the key of none.
pub proof fn lemma_slot_key(namespace: Seq<u8>, index: u32)
    ensures
        is_slot(namespace, slot_key(namespace, index)),
        slot_index(namespace, slot_key(namespace, index)) == index,
        !is_slot(namespace, namespace),
        slot_key(namespace, index) != namespace,
{
    let key = slot_key(namespace, index);
    crate::bytes::lemma_le_bytes_len(index as nat, 4);
    lemma_pow256_values();
    crate::bytes::lemma_le_value_of_bytes(index as nat, 4);
    assert(key.subrange(0, namespace.len() as int) =~= namespace);
    assert(key.skip(namespace.len() as int) =~= le_bytes(index as nat, 4));
}

/// A key of a slot is the key of the slot at its index.
pub proof fn lemma_slot_of_index(namespace: Seq<u8>, key: Seq<u8>)
    requires
        is_slot(namespace, key),
    ensures
        slot_index(namespace, key) <= u32::MAX,
        key == slot_key(namespace, slot_index(namespace, key) as u32),
{
    let tail = key.skip(namespace.len() as int);
    lemma_le_value_bound(tail);
    lemma_pow256_values();
    crate::bytes::lemma_le_bytes_of_value(tail);
    assert(key =~= key.subrange(0, namespace.len() as int) + tail);
}

/// Every key of a slot is the key of the slot at its index.
pub proof fn lemma_slots_indexed(namespace: Seq<u8>)
    ensures
        forall|key: Seq<u8>| #[trigger]
            is_slot(namespace, key) ==> slot_index(namespace, key) <= u32::MAX && key == slot_key(
                namespace,
                slot_index(namespace, key) as u32,
            ),
{
    assert forall|key: Seq<u8>| #[trigger] is_slot(namespace, key) implies slot_index(
        namespace,
        key,
    ) <= u32::MAX && key == slot_key(namespace, slot_index(namespace, key) as u32) by {
        lemma_slot_of_index(namespace, key);
    }
}

/// Slots at different indexes have different keys.
pub proof fn lemma_slot_keys_differ(namespace: Seq<u8>, i: u32, j: u32)
    requires
        i != j,
    ensures
        slot_key(namespace, i) != slot_key(namespace, j),
{
    lemma_slot_key(namespace, i);
    lemma_slot_key(namespace, j);
}

/// The store without the slots from `from` on and below `to`.
pub open spec fn without_slots(
    s: StorageView,
    namespace: Seq<u8>,
    from: int,
    to: int,
) -> StorageView {
    StorageView {
        records: Map::new(
            |key: Seq<u8>| s.records.contains_key(key) && !is_slot_between(namespace, from, to, key),
            |key: Seq<u8>| s.records[key],
        ),
        ..s
    }
}

/// The store after the slots from `index` on and below `len` have each been
/// copied into the slot above.
pub open spec fn shifted_up(s: StorageView, namespace: Seq<u8>, index: int, len: int) -> StorageView {
    StorageView {
        records: Map::new(
            |key: Seq<u8>|
                s.records.contains_key(key) || is_slot_between(namespace, index + 1, len + 1, key),
            |key: Seq<u8>|
                if is_slot_between(namespace, index + 1, len + 1, key) {
                    s.records[slot_key(namespace, (slot_index(namespace, key) - 1) as u32)]
                } else {
                    s.records[key]
                },
        ),
        ..s
    }
}

/// The store after the slots above `index` and up to `last` have each been
/// copied into the slot below.
pub open spec fn shifted_down(
    s: StorageView,
    namespace: Seq<u8>,
    index: int,
    last: int,
) -> StorageView {
    StorageView {
        records: Map::new(
            |key: Seq<u8>|
                s.records.contains_key(key) || is_slot_between(namespace, index, last, key),
            |key: Seq<u8>|
                if is_slot_between(namespace, index, last, key) {
                    s.records[slot_key(namespace, (slot_index(namespace, key) + 1) as u32)]
                } else {
                    s.records[key]
                },
        ),
        ..s
    }
}

/// The store after `bytes` are inserted at `index` into a vector of `len`
/// elements: the slots from `index` on are each copied into the slot above,
/// the slot at `index` holds `bytes`, and the length is one more.
pub open spec fn inserted(
    s: StorageView,
    namespace: Seq<u8>,
    index: u32,
    len: u32,
    bytes: Seq<u8>,
) -> StorageView {
    with_len(
        with_slot(shifted_up(s, namespace, index as int, len as int), namespace, index, bytes),
        namespace,
        (len + 1) as u32,
    )
}

/// The slots from `from` on and below `to` are all filled.
pub open spec fn slots_filled(
    records: Map<Seq<u8>, Seq<u8>>,
    namespace: Seq<u8>,
    from: int,
    to: int,
) -> bool {
    forall|index: u32| from <= index < to ==> records.contains_key(#[trigger] slot_key(namespace, index))
}

/// The bytes in the slot at `index`, if the slot holds any.
pub open spec fn slot(records: Map<Seq<u8>, Seq<u8>>, namespace: Seq<u8>, index: u32) -> Option<
    Seq<u8>,
> {
    if records.contains_key(slot_key(namespace, index)) {
        Some(records[slot_key(namespace, index)])
    } else {
        None
    }
}

/// What the slot at `index` holds as a value of type `V`: `None` for an
/// empty slot, `Some(None)` for bytes that do not parse, and otherwise the
/// value that the bytes stand for.
pub open spec fn slot_value<V: SerializableItem>(
    records: Map<Seq<u8>, Seq<u8>>,
    namespace: Seq<u8>,
    index: u32,
) -> Option<Option<V::V>> {
    match slot(records, namespace, index) {
        Some(bytes) => Some(V::decoding(bytes)),
        None => None,
    }
}

/// The model of a vector: its namespace and the length that it caches.
pub struct VecView {
    pub namespace: Seq<u8>,
    pub len: u32,
}

/// A growable array of values of type `V`, kept in the store under a
/// namespace. The vector caches its length, which it reads from the store
/// when it is made.
pub struct StoredVec<V: SerializableItem> {
    namespace: &'static [u8],
    map: StoredMap<u32, V>,
    len: u32,
}

impl<V: SerializableItem> View for StoredVec<V> {
    type V = VecView;

    closed spec fn view(&self) -> VecView {
        VecView { namespace: self.namespace@, len: self.len }
    }
}

/// The four little-endian bytes of a `u32`.
pub fn u32_to_le_bytes(value: u32) -> (bytes: Vec<u8>)
    ensures
        bytes@ == le_bytes(value as nat, 4),
        bytes@.len() == 4,
{
    proof {
        crate::bytes::lemma_le_bytes_len(value as nat, 4);
    }
    le_encode(value as u128, 4)
}

/// The `u32` that four little-endian bytes stand for; zero for any other
/// number of bytes.
pub fn u32_from_le_bytes_or_zero(bytes: &[u8]) -> (value: u32)
    ensures
        value == (if bytes@.len() == 4 {
            le_value(bytes@) as u32
        } else {
            0u32
        }),
{
    if bytes.len() != 4 {
        return 0;
    }
    proof {
        lemma_le_value_bound(bytes@);
        lemma_pow256_values();
    }
    le_decode(bytes) as u32
}

impl<V: SerializableItem> StoredVec<V> {
    /// The vector under `namespace`, with the length that the store keeps
    /// for it.
    pub fn new(store: &GlobalStorage, namespace: &'static [u8]) -> (vec: Self)
        ensures
            vec@ == (VecView { namespace: namespace@, len: stored_len(store@.records, namespace@) }),
            vec.wf(),
    {
        let len = match storage_read(store, namespace) {
            Some(data) => u32_from_le_bytes_or_zero(data.as_slice()),
            None => 0,
        };
        Self { namespace, map: StoredMap::new(namespace), len }
    }

    /// The parts of the vector agree on the namespace. Every vector that
    /// `new` has made is well-formed, and every method keeps it so.
    pub closed spec fn wf(&self) -> bool {
        self.map.namespace() == self.namespace@
    }

    /// Caches `value` as the length and keeps it in the store.
    fn set_len(&mut self, store: &mut GlobalStorage, value: u32)
        requires
            old(self).wf(),
        ensures
            final(self).wf(),
            final(self)@ == (VecView { len: value, ..old(self)@ }),
            final(store)@ == with_len(old(store)@, old(self)@.namespace, value),
    {
        self.len = value;
        let bytes = u32_to_le_bytes(value);
        storage_write(store, self.namespace, bytes.as_slice());
    }

    /// The number of elements.
    pub fn len(&self) -> (len: u32)
        ensures
            len == self@.len,
    {
        self.len
    }

    /// The element at `index`. An index that is not below the length is
    /// refused as not found, whatever the slot holds. Below the length the
    /// result is `Ok(None)` where the slot is empty, and an error where the
    /// bytes in the slot do not parse.
    pub fn get(&self, store: &GlobalStorage, index: u32) -> (result: Result<
        Option<OZeroCopy<V>>,
        StdError,
    >)
        requires
            self.wf(),
        ensures
            match result {
                Ok(None) => index < self@.len && slot_value::<V>(
                    store@.records,
                    self@.namespace,
                    index,
                ).is_none(),
                Ok(Some(cell)) => index < self@.len && slot_value::<V>(
                    store@.records,
                    self@.namespace,
                    index,
                ) == Some(Some(cell@)),
                Err(error) => if index >= self@.len {
                    error == StdError::NotFound
                } else {
                    slot_value::<V>(store@.records, self@.namespace, index) == Some(
                        None::<V::V>,
                    ) && error == StdError::ParseErr
                },
            },
    {
        if index >= self.len {
            return Err(StdError::NotFound);
        }
        self.map.get(store, &index)
    }

    /// Replaces the element at `index`. An index that is not below the
    /// length is refused as not found.
    pub fn set(&self, store: &mut GlobalStorage, index: u32, value: &V) -> (result: Result<
        (),
        StdError,
    >)
        requires
            self.wf(),
            V::encoding(value@) matches Some(bytes) ==> bytes.len() > 0,
        ensures
            match result {
                Ok(()) => index < self@.len && V::encoding(value@).is_some() && final(store)@
                    == with_slot(
                    old(store)@,
                    self@.namespace,
                    index,
                    V::encoding(value@).unwrap(),
                ),
                Err(error) => final(store)@ == old(store)@ && (if index >= self@.len {
                    error == StdError::NotFound
                } else {
                    V::encoding(value@).is_none() && error == StdError::SerializeErr
                }),
            },
    {
        if index >= self.len() {
            return Err(StdError::NotFound);
        }
        self.map.set(store, &index, value)
    }

    /// The greatest number of elements that a vector can hold.
    pub fn capacity(&self) -> (capacity: u32)
        ensures
            capacity == u32::MAX,
    {
        u32::MAX
    }

    /// Whether the vector has no element.
    pub fn is_empty(&self) -> (empty: bool)
        ensures
            empty == (self@.len == 0),
    {
        self.len() == 0
    }
}

/// The store after the last element of a vector of `len` elements is taken
/// off: the last slot is emptied and the length is one less.
pub open spec fn popped(s: StorageView, namespace: Seq<u8>, len: u32) -> StorageView {
    with_len(
        without_slot(s, namespace, (len - 1) as u32),
        namespace,
        (len - 1) as u32,
    )
}

/// The store after an element with the encoding `bytes` is appended to a
/// vector of `len` elements: the slot at `len` is filled and the length is
/// one more.
pub open spec fn pushed(s: StorageView, namespace: Seq<u8>, len: u32, bytes: Seq<u8>) -> StorageView {
    with_len(with_slot(s, namespace, len, bytes), namespace, (len + 1) as u32)
}

impl<V: SerializableItem> StoredVec<V> {
    /// Appends `element`. The element is written to the slot at the length
    /// before the length is advanced: where the length has no room left,
    /// the slot is written and the vector refuses with `Overflow`.
    pub fn push(&mut self, store: &mut GlobalStorage, element: &V) -> (result: Result<
        (),
        StdError,
    >)
        requires
            old(self).wf(),
            V::encoding(element@) matches Some(bytes) ==> bytes.len() > 0,
        ensures
            final(self).wf(),
            match result {
                Ok(()) => {
                    &&& V::encoding(element@).is_some()
                    &&& old(self)@.len < u32::MAX
                    &&& final(self)@ == (VecView {
                        len: (old(self)@.len + 1) as u32,
                        ..old(self)@
                    })
                    &&& final(store)@ == pushed(
                        old(store)@,
                        old(self)@.namespace,
                        old(self)@.len,
                        V::encoding(element@).unwrap(),
                    )
                },
                Err(error) => {
                    &&& final(self)@ == old(self)@
                    &&& if V::encoding(element@).is_none() {
                        error == StdError::SerializeErr && final(store)@ == old(store)@
                    } else {
                        old(self)@.len == u32::MAX && error == StdError::Overflow && final(store)@
                            == with_slot(
                            old(store)@,
                            old(self)@.namespace,
                            old(self)@.len,
                            V::encoding(element@).unwrap(),
                        )
                    }
                },
            },
    {
        let len = self.len();
        match self.map.set(store, &len, element) {
            Ok(()) => {},
            Err(error) => {
                return Err(error);
            },
        }
        match len.checked_add(1) {
            Some(new_len) => {
                self.set_len(store, new_len);
                Ok(())
            },
            None => Err(StdError::Overflow),
        }
    }

    /// Takes the last element off. An empty vector gives `Ok(None)` and
    /// stays as it is. Bytes that do not parse are an error, and the vector
    /// stays as it is. Otherwise the last slot is emptied and the length
    /// is one less, also where that slot held nothing.
    pub fn pop(&mut self, store: &mut GlobalStorage) -> (result: Result<
        Option<OZeroCopy<V>>,
        StdError,
    >)
        requires
            old(self).wf(),
        ensures
            final(self).wf(),
            old(self)@.len == 0 ==> (result matches Ok(None)) && final(self)@ == old(self)@
                && final(store)@ == old(store)@,
            old(self)@.len > 0 ==> match result {
                Ok(last) => {
                    &&& match last {
                        Some(cell) => slot_value::<V>(
                            old(store)@.records,
                            old(self)@.namespace,
                            (old(self)@.len - 1) as u32,
                        ) == Some(Some(cell@)),
                        None => slot_value::<V>(
                            old(store)@.records,
                            old(self)@.namespace,
                            (old(self)@.len - 1) as u32,
                        ).is_none(),
                    }
                    &&& final(self)@ == (VecView {
                        len: (old(self)@.len - 1) as u32,
                        ..old(self)@
                    })
                    &&& final(store)@ == popped(
                        old(store)@,
                        old(self)@.namespace,
                        old(self)@.len,
                    )
                },
                Err(error) => {
                    &&& slot_value::<V>(
                        old(store)@.records,
                        old(self)@.namespace,
                        (old(self)@.len - 1) as u32,
                    ) == Some(None::<V::V>)
                    &&& error == StdError::ParseErr
                    &&& final(self)@ == old(self)@
                    &&& final(store)@ == old(store)@
                },
            },
    {
        let mut len = self.len();
        if len == 0 {
            return Ok(None);
        }
        len -= 1;
        let result = match self.map.get(store, &len) {
            Ok(result) => result,
            Err(error) => {
                return Err(error);
            },
        };
        self.map.remove(store, &len);
        self.set_len(store, len);
        Ok(result)
    }

    /// Exchanges the bytes in the slots at `index1` and `index2`, without
    /// parsing them. An empty slot is refused as not found, and nothing is
    /// exchanged.
    pub fn swap(&self, store: &mut GlobalStorage, index1: u32, index2: u32) -> (result: Result<
        (),
        StdError,
    >)
        requires
            self.wf(),
        ensures
            match result {
                Ok(()) => {
                    &&& slot(old(store)@.records, self@.namespace, index1).is_some()
                    &&& slot(old(store)@.records, self@.namespace, index2).is_some()
                    &&& final(store)@ == with_slot(
                        with_slot(
                            old(store)@,
                            self@.namespace,
                            index1,
                            slot(old(store)@.records, self@.namespace, index2).unwrap(),
                        ),
                        self@.namespace,
                        index2,
                        slot(old(store)@.records, self@.namespace, index1).unwrap(),
                    )
                },
                Err(error) => {
                    &&& error == StdError::NotFound
                    &&& (slot(old(store)@.records, self@.namespace, index1).is_none() || slot(
                        old(store)@.records,
                        self@.namespace,
                        index2,
                    ).is_none())
                    &&& final(store)@ == old(store)@
                },
            },
    {
        let tmp_value = match self.map.get_raw_bytes(store, &index1) {
            Some(bytes) => bytes,
            None => {
                return Err(StdError::NotFound);
            },
        };
        let other = match self.map.get_raw_bytes(store, &index2) {
            Some(bytes) => bytes,
            None => {
                return Err(StdError::NotFound);
            },
        };
        self.map.set_raw_bytes(store, &index1, other.as_slice());
        self.map.set_raw_bytes(store, &index2, tmp_value.as_slice());
        Ok(())
    }

    /// Shortens the vector to `len` elements; a vector that is not longer
    /// stays as it is. Unless `dirty`, the slots that fall off are emptied;
    /// with `dirty` their bytes stay behind, and a later growth of the
    /// vector brings them back.
    pub fn truncate(&mut self, store: &mut GlobalStorage, len: u32, dirty: bool)
        requires
            old(self).wf(),
        ensures
            final(self).wf(),
            old(self)@.len <= len ==> final(self)@ == old(self)@ && final(store)@ == old(store)@,
            old(self)@.len > len ==> final(self)@ == (VecView { len, ..old(self)@ })
                && final(store)@ == with_len(
                if dirty {
                    old(store)@
                } else {
                    without_slots(
                        old(store)@,
                        old(self)@.namespace,
                        len as int,
                        old(self)@.len as int,
                    )
                },
                old(self)@.namespace,
                len,
            ),
    {
        let cur_len = self.len();
        if cur_len <= len {
            return ;
        }
        if !dirty {
            self.remove_slots(store, len, cur_len);
        }
        self.set_len(store, len);
    }

    /// Empties the vector. Unless `dirty`, the slots are emptied too.
    pub fn clear(&mut self, store: &mut GlobalStorage, dirty: bool)
        requires
            old(self).wf(),
        ensures
            final(self).wf(),
            final(self)@ == (VecView { len: 0, ..old(self)@ }),
            final(store)@ == with_len(
                if dirty {
                    old(store)@
                } else {
                    without_slots(old(store)@, old(self)@.namespace, 0, old(self)@.len as int)
                },
                old(self)@.namespace,
                0,
            ),
    {
        if !dirty {
            let len = self.len();
            self.remove_slots(store, 0, len);
        }
        self.set_len(store, 0);
    }

    /// Empties the slots from `from` on and below `to`.
    fn remove_slots(&self, store: &mut GlobalStorage, from: u32, to: u32)
        requires
            self.wf(),
        ensures
            final(store)@ == without_slots(old(store)@, self@.namespace, from as int, to as int),
    {
        let mut i = from;
        assert(store@.records =~= without_slots(
            old(store)@,
            self@.namespace,
            from as int,
            from as int,
        ).records);
        while i < to
            invariant
                self.wf(),
                from <= i,
                i <= to || i == from,
                store@ == without_slots(old(store)@, self@.namespace, from as int, i as int),
            decreases to - i,
        {
            self.map.remove(store, &i);
            proof {
                let ns = self@.namespace;
                lemma_slot_key(ns, i);
                lemma_slots_indexed(ns);
                assert(store@.records =~= without_slots(
                    old(store)@,
                    ns,
                    from as int,
                    i + 1,
                ).records);
            }
            i += 1;
        }
        proof {
            if i > to {
                assert(store@.records =~= without_slots(
                    old(store)@,
                    self@.namespace,
                    from as int,
                    to as int,
                ).records);
            }
        }
    }
}

/// What the values of a vector of elements hold.
pub open spec fn item_views<V: SerializableItem>(items: Seq<V>) -> Seq<V::V> {
    Seq::new(items.len(), |i: int| items[i]@)
}

/// What the values behind a vector of references hold.
pub open spec fn item_ref_views<V: SerializableItem>(items: Seq<&V>) -> Seq<V::V> {
    Seq::new(items.len(), |i: int| (*items[i])@)
}

/// Appending `items`, one after the other, to a vector of `len` elements:
/// the store afterwards, and the length reached or the error that ended the
/// appending. An item without an encoding ends it before anything of the
/// item is written; a length without room ends it after the item's slot is
/// written.
pub open spec fn extended<V: SerializableItem>(
    s: StorageView,
    namespace: Seq<u8>,
    len: u32,
    items: Seq<V::V>,
) -> (StorageView, Result<u32, StdError>)
    decreases items.len(),
{
    if items.len() == 0 {
        (s, Ok(len))
    } else {
        match V::encoding(items[0]) {
            None => (s, Err(StdError::SerializeErr)),
            Some(bytes) => if len == u32::MAX {
                (with_slot(s, namespace, len, bytes), Err(StdError::Overflow))
            } else {
                extended::<V>(
                    with_slot(s, namespace, len, bytes),
                    namespace,
                    (len + 1) as u32,
                    items.skip(1),
                )
            },
        }
    }
}

impl<V: SerializableItem> StoredVec<V> {
    /// Appends the items, one after the other, and then keeps the length
    /// reached. Where an item ends the appending with an error, the items
    /// before it are written, and the length stays as it was.
    pub fn extend(&mut self, store: &mut GlobalStorage, items: Vec<V>) -> (result: Result<
        (),
        StdError,
    >)
        requires
            old(self).wf(),
            forall|i: int|
                0 <= i < items@.len() ==> (V::encoding(#[trigger] items@[i]@) matches Some(bytes)
                    ==> bytes.len() > 0),
        ensures
            final(self).wf(),
            match result {
                Ok(()) => {
                    &&& extended::<V>(
                        old(store)@,
                        old(self)@.namespace,
                        old(self)@.len,
                        item_views(items@),
                    ).1 matches Ok(len)
                    &&& final(self)@ == (VecView { len, ..old(self)@ })
                    &&& final(store)@ == with_len(
                        extended::<V>(
                            old(store)@,
                            old(self)@.namespace,
                            old(self)@.len,
                            item_views(items@),
                        ).0,
                        old(self)@.namespace,
                        len,
                    )
                },
                Err(error) => {
                    &&& extended::<V>(
                        old(store)@,
                        old(self)@.namespace,
                        old(self)@.len,
                        item_views(items@),
                    ).1 == Err::<u32, StdError>(error)
                    &&& final(self)@ == old(self)@
                    &&& final(store)@ == extended::<V>(
                        old(store)@,
                        old(self)@.namespace,
                        old(self)@.len,
                        item_views(items@),
                    ).0
                },
            },
    {
        let ghost views = item_views(items@);
        let ghost target = extended::<V>(old(store)@, old(self)@.namespace, old(self)@.len, views);
        let mut len = self.len();
        let mut i: usize = 0;
        assert(views.skip(0) =~= views);
        while i < items.len()
            invariant
                i <= items.len(),
                self.wf(),
                self@ == old(self)@,
                views == item_views(items@),
                forall|j: int|
                    0 <= j < items@.len() ==> (V::encoding(#[trigger] items@[j]@) matches Some(
                        bytes,
                    ) ==> bytes.len() > 0),
                extended::<V>(store@, self@.namespace, len, views.skip(i as int)) == target,
                target == extended::<V>(
                    old(store)@,
                    old(self)@.namespace,
                    old(self)@.len,
                    item_views(items@),
                ),
            decreases items.len() - i,
        {
            let ghost rest = views.skip(i as int);
            let ghost before = store@;
            assert(rest[0] == items@[i as int]@);
            assert(rest.skip(1) =~= views.skip(i + 1));
            assert(extended::<V>(before, self@.namespace, len, rest) == target);
            match self.map.set(store, &len, &items[i]) {
                Ok(()) => {},
                Err(error) => {
                    return Err(error);
                },
            }
            len = match len.checked_add(1) {
                Some(next) => next,
                None => {
                    return Err(StdError::Overflow);
                },
            };
            i += 1;
        }
        self.set_len(store, len);
        Ok(())
    }

    /// Appends the items behind the references, as `extend` does.
    pub fn extend_ref(&mut self, store: &mut GlobalStorage, items: &[&V]) -> (result: Result<
        (),
        StdError,
    >)
        requires
            old(self).wf(),
            forall|i: int|
                0 <= i < items@.len() ==> (V::encoding((*#[trigger] items@[i])@) matches Some(bytes)
                    ==> bytes.len() > 0),
        ensures
            final(self).wf(),
            match result {
                Ok(()) => {
                    &&& extended::<V>(
                        old(store)@,
                        old(self)@.namespace,
                        old(self)@.len,
                        item_ref_views(items@),
                    ).1 matches Ok(len)
                    &&& final(self)@ == (VecView { len, ..old(self)@ })
                    &&& final(store)@ == with_len(
                        extended::<V>(
                            old(store)@,
                            old(self)@.namespace,
                            old(self)@.len,
                            item_ref_views(items@),
                        ).0,
                        old(self)@.namespace,
                        len,
                    )
                },
                Err(error) => {
                    &&& extended::<V>(
                        old(store)@,
                        old(self)@.namespace,
                        old(self)@.len,
                        item_ref_views(items@),
                    ).1 == Err::<u32, StdError>(error)
                    &&& final(self)@ == old(self)@
                    &&& final(store)@ == extended::<V>(
                        old(store)@,
                        old(self)@.namespace,
                        old(self)@.len,
                        item_ref_views(items@),
                    ).0
                },
            },
    {
        let ghost views = item_ref_views(items@);
        let ghost target = extended::<V>(old(store)@, old(self)@.namespace, old(self)@.len, views);
        let mut len = self.len();
        let mut i: usize = 0;
        assert(views.skip(0) =~= views);
        while i < items.len()
            invariant
                i <= items.len(),
                self.wf(),
                self@ == old(self)@,
                views == item_ref_views(items@),
                forall|j: int|
                    0 <= j < items@.len() ==> (V::encoding((*#[trigger] items@[j])@) matches Some(
                        bytes,
                    ) ==> bytes.len() > 0),
                extended::<V>(store@, self@.namespace, len, views.skip(i as int)) == target,
                target == extended::<V>(
                    old(store)@,
                    old(self)@.namespace,
                    old(self)@.len,
                    item_ref_views(items@),
                ),
            decreases items.len() - i,
        {
            let ghost rest = views.skip(i as int);
            let ghost before = store@;
            assert(rest[0] == (*items@[i as int])@);
            assert(rest.skip(1) =~= views.skip(i + 1));
            assert(extended::<V>(before, self@.namespace, len, rest) == target);
            match self.map.set(store, &len, items[i]) {
                Ok(()) => {},
                Err(error) => {
                    return Err(error);
                },
            }
            len = match len.checked_add(1) {
                Some(next) => next,
                None => {
                    return Err(StdError::Overflow);
                },
            };
            i += 1;
        }
        self.set_len(store, len);
        Ok(())
    }

    /// Inserts `element` at `index`: the bytes in the slots from `index` on
    /// are each copied into the slot above, without parsing them, `element`
    /// is written into the slot at `index`, and the length is one more. What
    /// stood at `index` and after it stands one place further on, and
    /// nothing is lost.
    ///
    /// An index beyond the length is refused as not found, and a vector
    /// without room as an overflow; neither touches the store. An element
    /// without an encoding is refused once the slots have been copied, and
    /// the length then stays as it was. The slots to copy must be filled.
    pub fn insert(&mut self, store: &mut GlobalStorage, index: u32, element: &V) -> (result: Result<
        (),
        StdError,
    >)
        requires
            old(self).wf(),
            V::encoding(element@) matches Some(bytes) ==> bytes.len() > 0,
            index <= old(self)@.len ==> slots_filled(
                old(store)@.records,
                old(self)@.namespace,
                index as int,
                old(self)@.len as int,
            ),
        ensures
            final(self).wf(),
            match result {
                Ok(()) => {
                    &&& index <= old(self)@.len
                    &&& old(self)@.len < u32::MAX
                    &&& V::encoding(element@).is_some()
                    &&& final(self)@ == (VecView {
                        len: (old(self)@.len + 1) as u32,
                        ..old(self)@
                    })
                    &&& final(store)@ == inserted(
                        old(store)@,
                        old(self)@.namespace,
                        index,
                        old(self)@.len,
                        V::encoding(element@).unwrap(),
                    )
                },
                Err(error) => {
                    &&& final(self)@ == old(self)@
                    &&& if index > old(self)@.len {
                        error == StdError::NotFound && final(store)@ == old(store)@
                    } else if old(self)@.len == u32::MAX {
                        error == StdError::Overflow && final(store)@ == old(store)@
                    } else {
                        V::encoding(element@).is_none() && error == StdError::SerializeErr
                            && final(store)@ == shifted_up(
                            old(store)@,
                            old(self)@.namespace,
                            index as int,
                            old(self)@.len as int,
                        )
                    }
                },
            },
    {
        let len = self.len();
        if index > len {
            return Err(StdError::NotFound);
        }
        let new_len = match len.checked_add(1) {
            Some(new_len) => new_len,
            None => {
                return Err(StdError::Overflow);
            },
        };
        let ghost ns = self@.namespace;
        let mut i = len;
        assert(store@.records =~= shifted_up(old(store)@, ns, len as int, len as int).records);
        while i > index
            invariant
                self.wf(),
                self@ == old(self)@,
                ns == self@.namespace,
                len == self@.len,
                len < u32::MAX,
                index <= i <= len,
                slots_filled(old(store)@.records, ns, index as int, len as int),
                store@ == shifted_up(old(store)@, ns, i as int, len as int),
            decreases i,
        {
            i -= 1;
            proof {
                lemma_slot_key(ns, i);
                lemma_slot_key(ns, (i + 1) as u32);
            }
            let bytes = match self.map.get_raw_bytes(store, &i) {
                Some(bytes) => bytes,
                None => {
                    proof {
                        assert(false);
                    }
                    return Err(StdError::NotFound);
                },
            };
            let above = i + 1;
            self.map.set_raw_bytes(store, &above, bytes.as_slice());
            proof {
                lemma_slots_indexed(ns);
                assert(store@.records =~= shifted_up(
                    old(store)@,
                    ns,
                    i as int,
                    len as int,
                ).records);
            }
        }
        match self.map.set(store, &index, element) {
            Ok(()) => {},
            Err(error) => {
                return Err(error);
            },
        }
        self.set_len(store, new_len);
        Ok(())
    }

    /// Takes the element at `index` out: the bytes in the slots above it
    /// are each copied into the slot below, without parsing them, the last
    /// slot is emptied, and the length is one less. An empty vector or an
    /// empty slot at `index` is refused as not found. The slots to copy must
    /// be filled.
    pub fn remove(&mut self, store: &mut GlobalStorage, index: u32) -> (result: Result<
        OZeroCopy<V>,
        StdError,
    >)
        requires
            old(self).wf(),
            old(self)@.len > 0 && slot(old(store)@.records, old(self)@.namespace, index).is_some()
                ==> slots_filled(
                old(store)@.records,
                old(self)@.namespace,
                index + 1,
                old(self)@.len as int,
            ),
        ensures
            final(self).wf(),
            match result {
                Ok(cell) => {
                    &&& old(self)@.len > 0
                    &&& slot_value::<V>(old(store)@.records, old(self)@.namespace, index) == Some(
                        Some(cell@),
                    )
                    &&& final(self)@ == (VecView {
                        len: (old(self)@.len - 1) as u32,
                        ..old(self)@
                    })
                    &&& final(store)@ == popped(
                        shifted_down(
                            old(store)@,
                            old(self)@.namespace,
                            index as int,
                            old(self)@.len - 1,
                        ),
                        old(self)@.namespace,
                        old(self)@.len,
                    )
                },
                Err(error) => {
                    &&& final(self)@ == old(self)@
                    &&& final(store)@ == old(store)@
                    &&& if old(self)@.len == 0 || slot(
                        old(store)@.records,
                        old(self)@.namespace,
                        index,
                    ).is_none() {
                        error == StdError::NotFound
                    } else {
                        slot_value::<V>(old(store)@.records, old(self)@.namespace, index) == Some(
                            None::<V::V>,
                        ) && error == StdError::ParseErr
                    }
                },
            },
    {
        let new_len = match self.len().checked_sub(1) {
            Some(new_len) => new_len,
            None => {
                return Err(StdError::NotFound);
            },
        };
        let result = match self.map.get(store, &index) {
            Ok(Some(cell)) => cell,
            Ok(None) => {
                return Err(StdError::NotFound);
            },
            Err(error) => {
                return Err(error);
            },
        };
        let ghost ns = self@.namespace;
        let mut i = index;
        assert(store@.records =~= shifted_down(old(store)@, ns, index as int, index as int).records)
            by {
            lemma_slot_key(ns, index);
        }
        while i < new_len
            invariant
                self.wf(),
                self@ == old(self)@,
                ns == self@.namespace,
                new_len == self@.len - 1,
                index <= i,
                i <= new_len || i == index,
                old(store)@.records.contains_key(slot_key(ns, index)),
                slots_filled(old(store)@.records, ns, index + 1, new_len + 1),
                store@ == shifted_down(old(store)@, ns, index as int, i as int),
            decreases new_len - i,
        {
            let above = i + 1;
            proof {
                lemma_slot_key(ns, i);
                lemma_slot_key(ns, above);
            }
            let bytes = match self.map.get_raw_bytes(store, &above) {
                Some(bytes) => bytes,
                None => {
                    proof {
                        assert(false);
                    }
                    return Err(StdError::NotFound);
                },
            };
            self.map.set_raw_bytes(store, &i, bytes.as_slice());
            proof {
                lemma_slots_indexed(ns);
                assert(store@.records =~= shifted_down(
                    old(store)@,
                    ns,
                    index as int,
                    i + 1,
                ).records);
            }
            i += 1;
        }
        proof {
            if i > new_len {
                assert(store@.records =~= shifted_down(
                    old(store)@,
                    ns,
                    index as int,
                    new_len as int,
                ).records);
            }
        }
        self.map.remove(store, &new_len);
        self.set_len(store, new_len);
        Ok(result)
    }

    /// Takes the element at `index` out and puts the bytes of the last
    /// element in its place, without parsing them; the last slot is emptied
    /// and the length is one less. An empty vector or an empty slot at
    /// `index` is refused as not found. The last slot must be filled.
    pub fn swap_remove(&mut self, store: &mut GlobalStorage, index: u32) -> (result: Result<
        OZeroCopy<V>,
        StdError,
    >)
        requires
            old(self).wf(),
            old(self)@.len > 0 && slot(old(store)@.records, old(self)@.namespace, index).is_some()
                ==> slot(
                old(store)@.records,
                old(self)@.namespace,
                (old(self)@.len - 1) as u32,
            ).is_some(),
        ensures
            final(self).wf(),
            match result {
                Ok(cell) => {
                    &&& old(self)@.len > 0
                    &&& slot_value::<V>(old(store)@.records, old(self)@.namespace, index) == Some(
                        Some(cell@),
                    )
                    &&& final(self)@ == (VecView {
                        len: (old(self)@.len - 1) as u32,
                        ..old(self)@
                    })
                    &&& final(store)@ == popped(
                        with_slot(
                            old(store)@,
                            old(self)@.namespace,
                            index,
                            slot(
                                old(store)@.records,
                                old(self)@.namespace,
                                (old(self)@.len - 1) as u32,
                            ).unwrap(),
                        ),
                        old(self)@.namespace,
                        old(self)@.len,
                    )
                },
                Err(error) => {
                    &&& final(self)@ == old(self)@
                    &&& final(store)@ == old(store)@
                    &&& if old(self)@.len == 0 || slot(
                        old(store)@.records,
                        old(self)@.namespace,
                        index,
                    ).is_none() {
                        error == StdError::NotFound
                    } else {
                        slot_value::<V>(old(store)@.records, old(self)@.namespace, index) == Some(
                            None::<V::V>,
                        ) && error == StdError::ParseErr
                    }
                },
            },
    {
        let new_len = match self.len().checked_sub(1) {
            Some(new_len) => new_len,
            None => {
                return Err(StdError::NotFound);
            },
        };
        let result = match self.map.get(store, &index) {
            Ok(Some(cell)) => cell,
            Ok(None) => {
                return Err(StdError::NotFound);
            },
            Err(error) => {
                return Err(error);
            },
        };
        let last = match self.map.get_raw_bytes(store, &new_len) {
            Some(bytes) => bytes,
            None => {
                proof {
                    assert(false);
                }
                return Err(StdError::NotFound);
            },
        };
        self.map.set_raw_bytes(store, &index, last.as_slice());
        self.map.remove(store, &new_len);
        self.set_len(store, new_len);
        Ok(result)
    }

    /// An iterator over the elements, from the first to the last.
    pub fn iter(&self) -> (it: IndexedStoredItemIter<V>)
        ensures
            it@ == (IndexedView { namespace: self@.namespace, start: 0, end: self@.len }),
    {
        let len = self.len();
        IndexedStoredItemIter::new(self.namespace, 0, len)
    }

    /// An iterator over the elements, which takes the place of the vector.
    pub fn into_iter(self) -> (it: IndexedStoredItemIter<V>)
        ensures
            it@ == (IndexedView { namespace: self@.namespace, start: 0, end: self@.len }),
    {
        let len = self.len();
        IndexedStoredItemIter::new(self.namespace, 0, len)
    }
}

/// The model of an iterator over slots: its namespace, the index of the
/// slot that the front hands out next, and the index after that of the slot
/// that the back hands out next. The indexes run in a ring of `2^32`
/// positions.
pub struct IndexedView {
    pub namespace: Seq<u8>,
    pub start: u32,
    pub end: u32,
}

/// The number of steps from `start` forward to `end` in the ring of `2^32`
/// positions.
pub open spec fn ring_distance(start: u32, end: u32) -> nat {
    if end >= start {
        (end - start) as nat
    } else {
        (end + 0x1_0000_0000 - start) as nat
    }
}

/// The position `steps` steps forward of `position` in the ring.
pub open spec fn ring_forward(position: u32, steps: nat) -> u32 {
    ((position + steps) % 0x1_0000_0000) as u32
}

/// The position `steps` steps back of `position` in the ring.
pub open spec fn ring_back(position: u32, steps: nat) -> u32 {
    ((position - steps) % 0x1_0000_0000) as u32
}

/// A double-ended iterator over the slots of a vector or of a queue.
pub struct IndexedStoredItemIter<V: SerializableItem> {
    namespace: &'static [u8],
    start: u32,
    end: u32,
    value_type: PhantomData<V>,
}

impl<V: SerializableItem> View for IndexedStoredItemIter<V> {
    type V = IndexedView;

    closed spec fn view(&self) -> IndexedView {
        IndexedView { namespace: self.namespace@, start: self.start, end: self.end }
    }
}

/// What a step of an iterator over slots hands out for a slot: nothing for
/// an empty slot, an error for bytes that do not parse, and otherwise the
/// value.
pub open spec fn handed_out<V: SerializableItem>(
    item: Option<Result<OZeroCopy<V>, StdError>>,
    held: Option<Option<V::V>>,
) -> bool {
    match item {
        None => held.is_none(),
        Some(Ok(cell)) => held == Some(Some(cell@)),
        Some(Err(error)) => held == Some(None::<V::V>) && error == StdError::ParseErr,
    }
}

impl<V: SerializableItem> IndexedStoredItemIter<V> {
    /// An iterator over the slots under `namespace` from `start` on and
    /// before `end`, forward in the ring.
    pub fn new(namespace: &'static [u8], start: u32, end: u32) -> (it: Self)
        ensures
            it@ == (IndexedView { namespace: namespace@, start, end }),
    {
        Self { namespace, start, end, value_type: PhantomData }
    }

    /// The number of slots left between the front and the back.
    pub fn remaining(&self) -> (left: u32)
        ensures
            left == ring_distance(self@.start, self@.end),
    {
        self.end.wrapping_sub(self.start)
    }

    /// Skips `n` slots from the front. Where fewer are left, the iterator
    /// is ended and the number of slots that were not skipped is returned
    /// as the error.
    pub fn advance_by(&mut self, n: usize) -> (result: Result<(), usize>)
        ensures
            final(self)@.namespace == old(self)@.namespace,
            final(self)@.end == old(self)@.end,
            match result {
                Ok(()) => n <= ring_distance(old(self)@.start, old(self)@.end) && final(self)@.start == ring_forward(old(self)@.start, n as nat),
                Err(left) => n > ring_distance(old(self)@.start, old(self)@.end) && left == n
                    - ring_distance(old(self)@.start, old(self)@.end) && final(self)@.start == old(self)@.end,
            },
    {
        let left = self.remaining();
        if n <= left as usize {
            self.start = self.start.wrapping_add(n as u32);
            Ok(())
        } else {
            self.start = self.end;
            Err(n - left as usize)
        }
    }

    /// Skips `n` slots from the back. Where fewer are left, the iterator is
    /// ended and the number of slots that were not skipped is returned as
    /// the error.
    pub fn advance_back_by(&mut self, n: usize) -> (result: Result<(), usize>)
        ensures
            final(self)@.namespace == old(self)@.namespace,
            final(self)@.start == old(self)@.start,
            match result {
                Ok(()) => n <= ring_distance(old(self)@.start, old(self)@.end) && final(self)@.end == ring_back(old(self)@.end, n as nat),
                Err(left) => n > ring_distance(old(self)@.start, old(self)@.end) && left == n
                    - ring_distance(old(self)@.start, old(self)@.end) && final(self)@.end == old(self)@.start,
            },
    {
        let left = self.remaining();
        if n <= left as usize {
            self.end = self.end.wrapping_sub(n as u32);
            Ok(())
        } else {
            self.end = self.start;
            Err(n - left as usize)
        }
    }

    /// The value in the slot at the front, after which the front stands one
    /// slot further. `None` where the front has reached the back, and also
    /// for an empty slot.
    pub fn next(&mut self, store: &GlobalStorage) -> (item: Option<Result<OZeroCopy<V>, StdError>>)
        ensures
            final(self)@.namespace == old(self)@.namespace,
            final(self)@.end == old(self)@.end,
            old(self)@.start == old(self)@.end ==> item.is_none() && final(self)@ == old(self)@,
            old(self)@.start != old(self)@.end ==> final(self)@.start == ring_forward(
                old(self)@.start,
                1,
            ) && handed_out(
                item,
                slot_value::<V>(store@.records, old(self)@.namespace, old(self)@.start),
            ),
    {
        if self.start == self.end {
            return None;
        }
        let key = concat_byte_array_pairs(self.namespace, u32_to_le_bytes(self.start).as_slice());
        let result = storage_read_item(store, key.as_slice());
        self.start = self.start.wrapping_add(1);
        match result {
            Ok(Some(cell)) => Some(Ok(cell)),
            Ok(None) => None,
            Err(error) => Some(Err(error)),
        }
    }

    /// Skips `n` slots from the front and hands out the value in the slot
    /// after them.
    pub fn nth(&mut self, store: &GlobalStorage, n: usize) -> (item: Option<
        Result<OZeroCopy<V>, StdError>,
    >)
        ensures
            final(self)@.namespace == old(self)@.namespace,
            final(self)@.end == old(self)@.end,
            n >= ring_distance(old(self)@.start, old(self)@.end) ==> item.is_none() && final(self)@.start == old(self)@.end,
            n < ring_distance(old(self)@.start, old(self)@.end) ==> final(self)@.start
                == ring_forward(old(self)@.start, (n + 1) as nat) && handed_out(
                item,
                slot_value::<V>(
                    store@.records,
                    old(self)@.namespace,
                    ring_forward(old(self)@.start, n as nat),
                ),
            ),
    {
        match self.advance_by(n) {
            Ok(()) => self.next(store),
            Err(_) => None,
        }
    }

    /// The number of slots left, as the least and the greatest number of
    /// items that the iterator may still hand out.
    pub fn size_hint(&self) -> (hint: (usize, Option<usize>))
        ensures
            hint.0 == ring_distance(self@.start, self@.end),
            hint.1 == Some(hint.0),
    {
        let left = self.remaining() as usize;
        (left, Some(left))
    }

    /// The value in the slot before the back, after which the back stands
    /// at that slot. `None` where the back has reached the front, and also
    /// for an empty slot.
    pub fn next_back(&mut self, store: &GlobalStorage) -> (item: Option<
        Result<OZeroCopy<V>, StdError>,
    >)
        ensures
            final(self)@.namespace == old(self)@.namespace,
            final(self)@.start == old(self)@.start,
            old(self)@.start == old(self)@.end ==> item.is_none() && final(self)@ == old(self)@,
            old(self)@.start != old(self)@.end ==> final(self)@.end == ring_back(old(self)@.end, 1)
                && handed_out(
                item,
                slot_value::<V>(
                    store@.records,
                    old(self)@.namespace,
                    ring_back(old(self)@.end, 1),
                ),
            ),
    {
        if self.start == self.end {
            return None;
        }
        self.end = self.end.wrapping_sub(1);
        let key = concat_byte_array_pairs(self.namespace, u32_to_le_bytes(self.end).as_slice());
        match storage_read_item(store, key.as_slice()) {
            Ok(Some(cell)) => Some(Ok(cell)),
            Ok(None) => None,
            Err(error) => Some(Err(error)),
        }
    }

    /// Skips `n` slots from the back and hands out the value in the slot
    /// before them.
    pub fn nth_back(&mut self, store: &GlobalStorage, n: usize) -> (item: Option<
        Result<OZeroCopy<V>, StdError>,
    >)
        ensures
            final(self)@.namespace == old(self)@.namespace,
            final(self)@.start == old(self)@.start,
            n >= ring_distance(old(self)@.start, old(self)@.end) ==> item.is_none() && final(self)@.end == old(self)@.start,
            n < ring_distance(old(self)@.start, old(self)@.end) ==> final(self)@.end == ring_back(
                old(self)@.end,
                (n + 1) as nat,
            ) && handed_out(
                item,
                slot_value::<V>(
                    store@.records,
                    old(self)@.namespace,
                    ring_back(old(self)@.end, (n + 1) as nat),
                ),
            ),
    {
        match self.advance_back_by(n) {
            Ok(()) => self.next_back(store),
            Err(_) => None,
        }
    }
}

} // verus!
