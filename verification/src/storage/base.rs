//! The key-value store: byte strings kept under byte-string keys, read and
//! written one key at a time and walked through cursors in either direction.

use vstd::prelude::*;
use std::collections::BTreeMap;
use cosmwasm_std::MemoryStorage;
use crate::bytes::{lex_le, lex_lt};
use crate::error::StdError;
use super::{IteratorDirection, OZeroCopy, SerializableItem, StorageIterId};

verus! {

broadcast use vstd::std_specs::btree::group_btree_axioms;

/// The in-memory store of `cosmwasm_std`, carried as an opaque value.
#[verifier::external_type_specification]
#[verifier::external_body]
pub struct ExMemoryStorage(cosmwasm_std::MemoryStorage);

/// The records that a `MemoryStorage` holds: a value for each key in it.
pub uninterp spec fn memory_storage_records(storage: MemoryStorage) -> Map<Seq<u8>, Seq<u8>>;

/// What an optional byte slice holds.
pub open spec fn opt_bytes(bytes: Option<&[u8]>) -> Option<Seq<u8>> {
    match bytes {
        Some(b) => Some(b@),
        None => None,
    }
}

/// What an optional byte vector holds.
pub open spec fn opt_vec_bytes(bytes: Option<Vec<u8>>) -> Option<Seq<u8>> {
    match bytes {
        Some(b) => Some(b@),
        None => None,
    }
}

/// What a record, a key with its value, holds.
pub open spec fn opt_record(record: Option<(Vec<u8>, Vec<u8>)>) -> Option<(Seq<u8>, Seq<u8>)> {
    match record {
        Some((k, v)) => Some((k@, v@)),
        None => None,
    }
}

/// `key` lies in the range that starts with `start` (inclusive; at the least
/// key where there is none) and ends before `end` (at the greatest key where
/// there is none).
pub open spec fn in_range(key: Seq<u8>, start: Option<Seq<u8>>, end: Option<Seq<u8>>) -> bool {
    &&& start matches Some(s) ==> lex_le(s, key)
    &&& end matches Some(e) ==> lex_lt(key, e)
}

/// `key` is the key that a walk over the range in the given direction meets
/// first: it is a key of `records` in the range, and no other key of
/// `records` in the range comes before it in that direction.
pub open spec fn is_first_in_range(
    records: Map<Seq<u8>, Seq<u8>>,
    start: Option<Seq<u8>>,
    end: Option<Seq<u8>>,
    direction: IteratorDirection,
    key: Seq<u8>,
) -> bool {
    &&& records.contains_key(key)
    &&& in_range(key, start, end)
    &&& forall|other: Seq<u8>| #[trigger]
        records.contains_key(other) && in_range(other, start, end) ==> match direction {
            IteratorDirection::Ascending => lex_le(key, other),
            IteratorDirection::Descending => lex_le(other, key),
        }
}

/// No key of `records` lies in the range.
pub open spec fn none_in_range(
    records: Map<Seq<u8>, Seq<u8>>,
    start: Option<Seq<u8>>,
    end: Option<Seq<u8>>,
) -> bool {
    forall|key: Seq<u8>| #[trigger] records.contains_key(key) ==> !in_range(key, start, end)
}

/// The record that a walk over the range in the given direction meets first,
/// if the range holds one.
pub open spec fn first_record(
    records: Map<Seq<u8>, Seq<u8>>,
    start: Option<Seq<u8>>,
    end: Option<Seq<u8>>,
    direction: IteratorDirection,
) -> Option<(Seq<u8>, Seq<u8>)> {
    if exists|key: Seq<u8>| is_first_in_range(records, start, end, direction, key) {
        let key = choose|key: Seq<u8>| is_first_in_range(records, start, end, direction, key);
        Some((key, records[key]))
    } else {
        None
    }
}

/// A range has one first key at most.
pub proof fn lemma_first_in_range_unique(
    records: Map<Seq<u8>, Seq<u8>>,
    start: Option<Seq<u8>>,
    end: Option<Seq<u8>>,
    direction: IteratorDirection,
    k1: Seq<u8>,
    k2: Seq<u8>,
)
    requires
        is_first_in_range(records, start, end, direction, k1),
        is_first_in_range(records, start, end, direction, k2),
    ensures
        k1 == k2,
{
    crate::bytes::lemma_lex_total(k1, k2);
    assert(records.contains_key(k1) && in_range(k1, start, end));
    assert(records.contains_key(k2) && in_range(k2, start, end));
}

/// `MemoryStorage::new`: a store without records.
#[verifier::external_body]
fn memory_storage_new() -> (storage: MemoryStorage)
    ensures
        forall|key: Seq<u8>| !memory_storage_records(storage).contains_key(key),
{
    MemoryStorage::new()
}

/// `MemoryStorage::get` (of `cosmwasm_std::Storage`): a copy of the value
/// kept under `key`, or `None` where the store has no such key. The value is
/// not empty: `set`, the one way in, refuses an empty value.
#[verifier::external_body]
fn memory_storage_get(storage: &MemoryStorage, key: &[u8]) -> (value: Option<Vec<u8>>)
    ensures
        value.is_some() == memory_storage_records(*storage).contains_key(key@),
        value matches Some(v) ==> v@ == memory_storage_records(*storage)[key@],
        value matches Some(v) ==> v@.len() > 0,
{
    cosmwasm_std::Storage::get(storage, key)
}

/// `MemoryStorage::set`: afterwards `key` holds `value` and every other key
/// what it held. The store keeps its records in a `BTreeMap`, so they are
/// finitely many. The outside function panics on an empty value, which the
/// `requires` leaves out.
#[verifier::external_body]
fn memory_storage_set(storage: &mut MemoryStorage, key: &[u8], value: &[u8])
    requires
        value@.len() > 0,
    ensures
        memory_storage_records(*final(storage)) == memory_storage_records(*old(storage)).insert(
            key@,
            value@,
        ),
        memory_storage_records(*final(storage)).dom().finite(),
{
    cosmwasm_std::Storage::set(storage, key, value)
}

/// `MemoryStorage::remove`: afterwards the store has no record under `key`,
/// and every other key holds what it held. The store keeps its records in
/// a `BTreeMap`, so they are finitely many.
#[verifier::external_body]
fn memory_storage_remove(storage: &mut MemoryStorage, key: &[u8])
    ensures
        memory_storage_records(*final(storage)) == memory_storage_records(*old(storage)).remove(
            key@,
        ),
        memory_storage_records(*final(storage)).dom().finite(),
{
    cosmwasm_std::Storage::remove(storage, key)
}

/// `MemoryStorage::range`, of which the first item is taken: the record with
/// the least key (ascending) or the greatest key (descending) among those
/// from `start` on and before `end`, in the lexicographic order of the keys;
/// `None` where no key lies in that range, as when `start` is not below `end`.
#[verifier::external_body]
fn memory_storage_first(
    storage: &MemoryStorage,
    start: Option<&[u8]>,
    end: Option<&[u8]>,
    direction: IteratorDirection,
) -> (record: Option<(Vec<u8>, Vec<u8>)>)
    ensures
        match record {
            Some((key, value)) => {
                &&& is_first_in_range(
                    memory_storage_records(*storage),
                    opt_bytes(start),
                    opt_bytes(end),
                    direction,
                    key@,
                )
                &&& value@ == memory_storage_records(*storage)[key@]
            },
            None => none_in_range(
                memory_storage_records(*storage),
                opt_bytes(start),
                opt_bytes(end),
            ),
        },
{
    let order = match direction {
        IteratorDirection::Ascending => cosmwasm_std::Order::Ascending,
        IteratorDirection::Descending => cosmwasm_std::Order::Descending,
    };
    cosmwasm_std::Storage::range(storage, start, end, order).next()
}

/// What the store remembers of a cursor between two steps.
pub struct IterState {
    next_record: (Vec<u8>, Vec<u8>),
    end: Option<Vec<u8>>,
    direction: IteratorDirection,
    storage_nonce: u32,
}

/// The model of a cursor: the record it hands out next, the bound at which it
/// stops, its direction, and the generation of the store it was opened on.
pub struct CursorView {
    pub key: Seq<u8>,
    pub value: Seq<u8>,
    pub bound: Option<Seq<u8>>,
    pub direction: IteratorDirection,
    pub generation: u32,
}

impl View for IterState {
    type V = CursorView;

    closed spec fn view(&self) -> CursorView {
        CursorView {
            key: self.next_record.0@,
            value: self.next_record.1@,
            bound: opt_vec_bytes(self.end),
            direction: self.direction,
            generation: self.storage_nonce,
        }
    }
}

/// The model of a store: its records, the generation that a replacement of
/// the records advances, the identifier that the next cursor gets, and the
/// cursors that are still open.
pub struct StorageView {
    pub records: Map<Seq<u8>, Seq<u8>>,
    pub generation: u32,
    pub next_iter_id: u32,
    pub cursors: Map<u32, CursorView>,
}

/// A key-value store with the registry of its cursors. A cursor is a plain
/// identifier; the store keeps its state, and ends a cursor that was opened
/// before the records were last replaced.
pub struct GlobalStorage {
    storage: MemoryStorage,
    storage_seq: u32,
    iter_seq: u32,
    iter_states: BTreeMap<u32, IterState>,
}

impl View for GlobalStorage {
    type V = StorageView;

    closed spec fn view(&self) -> StorageView {
        StorageView {
            records: memory_storage_records(self.storage),
            generation: self.storage_seq,
            next_iter_id: self.iter_seq,
            cursors: Map::new(
                |id: u32| self.iter_states@.contains_key(id),
                |id: u32| self.iter_states@[id]@,
            ),
        }
    }
}

/// The store after `storage_write`.
pub open spec fn write_spec(s: StorageView, key: Seq<u8>, value: Seq<u8>) -> StorageView {
    StorageView { records: s.records.insert(key, value), ..s }
}

/// The store after `storage_remove`.
pub open spec fn remove_spec(s: StorageView, key: Seq<u8>) -> StorageView {
    StorageView { records: s.records.remove(key), ..s }
}

/// The bound at which a cursor over `start..end` stops: `end` when it
/// ascends, `start` when it descends.
pub open spec fn far_bound(
    start: Option<Seq<u8>>,
    end: Option<Seq<u8>>,
    direction: IteratorDirection,
) -> Option<Seq<u8>> {
    match direction {
        IteratorDirection::Ascending => end,
        IteratorDirection::Descending => start,
    }
}

/// The store after `storage_iter_new`: the next identifier is taken, and
/// where the range holds a record the cursor is registered with the first of
/// them; where it holds none, no cursor is registered.
pub open spec fn iter_new_spec(
    s: StorageView,
    start: Option<Seq<u8>>,
    end: Option<Seq<u8>>,
    direction: IteratorDirection,
) -> StorageView {
    let id = s.next_iter_id;
    let next_iter_id = if id == u32::MAX {
        0u32
    } else {
        (id + 1) as u32
    };
    match first_record(s.records, start, end, direction) {
        Some((key, value)) => StorageView {
            next_iter_id,
            cursors: s.cursors.insert(
                id,
                CursorView {
                    key,
                    value,
                    bound: far_bound(start, end, direction),
                    direction,
                    generation: s.generation,
                },
            ),
            ..s
        },
        None => StorageView { next_iter_id, ..s },
    }
}

/// The record that follows the one a cursor holds: the first one beyond its
/// key, in its direction, that its bound admits.
pub open spec fn following_record(
    records: Map<Seq<u8>, Seq<u8>>,
    cursor: CursorView,
) -> Option<(Seq<u8>, Seq<u8>)> {
    match cursor.direction {
        IteratorDirection::Ascending => first_record(
            records,
            Some(cursor.key.push(0u8)),
            cursor.bound,
            IteratorDirection::Ascending,
        ),
        IteratorDirection::Descending => first_record(
            records,
            cursor.bound,
            Some(cursor.key),
            IteratorDirection::Descending,
        ),
    }
}

/// The store after one step of the cursor `id`.
pub open spec fn iter_next_store(s: StorageView, id: u32) -> StorageView {
    if !s.cursors.contains_key(id) {
        s
    } else if s.cursors[id].generation < s.generation {
        StorageView { cursors: s.cursors.remove(id), ..s }
    } else {
        match following_record(s.records, s.cursors[id]) {
            Some((key, value)) => StorageView {
                cursors: s.cursors.insert(id, CursorView { key, value, ..s.cursors[id] }),
                ..s
            },
            None => StorageView { cursors: s.cursors.remove(id), ..s },
        }
    }
}

/// The record that one step of the cursor `id` hands out: the one it holds,
/// unless the cursor is unknown or older than the records.
pub open spec fn iter_next_record(s: StorageView, id: u32) -> Option<(Seq<u8>, Seq<u8>)> {
    if s.cursors.contains_key(id) && s.cursors[id].generation >= s.generation {
        Some((s.cursors[id].key, s.cursors[id].value))
    } else {
        None
    }
}

impl GlobalStorage {
    /// A store without records and without cursors.
    pub fn new() -> (store: Self)
        ensures
            store@.records == Map::<Seq<u8>, Seq<u8>>::empty(),
            store@.records.dom().finite(),
            store@.cursors == Map::<u32, CursorView>::empty(),
            store@.generation == 0,
            store@.next_iter_id == 0,
    {
        let store = GlobalStorage {
            storage: memory_storage_new(),
            storage_seq: 0,
            iter_seq: 0,
            iter_states: BTreeMap::new(),
        };
        assert(store@.records =~= Map::<Seq<u8>, Seq<u8>>::empty());
        assert(store@.cursors =~= Map::<u32, CursorView>::empty());
        store
    }
}

/// Replaces the records of the store by those of `storage` and hands the
/// former records back. The generation advances, which ends every cursor
/// that was opened before.
pub fn set_global_storage(store: &mut GlobalStorage, storage: MemoryStorage) -> (previous:
    MemoryStorage)
    ensures
        final(store)@.records == memory_storage_records(storage),
        memory_storage_records(previous) == old(store)@.records,
        final(store)@.generation == (if old(store)@.generation == u32::MAX {
            0u32
        } else {
            (old(store)@.generation + 1) as u32
        }),
        final(store)@.next_iter_id == old(store)@.next_iter_id,
        final(store)@.cursors == old(store)@.cursors,
{
    store.storage_seq = store.storage_seq.wrapping_add(1);
    let mut storage = storage;
    std::mem::swap(&mut store.storage, &mut storage);
    storage
}

/// The value kept under `key`, if there is one. A value that is kept is
/// not empty.
pub fn storage_read(store: &GlobalStorage, key: &[u8]) -> (value: Option<Vec<u8>>)
    ensures
        value.is_some() == store@.records.contains_key(key@),
        value matches Some(v) ==> v@ == store@.records[key@],
        value matches Some(v) ==> v@.len() > 0,
{
    memory_storage_get(&store.storage, key)
}

/// Whether the store has a record under `key`.
pub fn storage_has(store: &GlobalStorage, key: &[u8]) -> (present: bool)
    ensures
        present == store@.records.contains_key(key@),
{
    storage_read(store, key).is_some()
}

/// Keeps `value` under `key`. An empty value cannot be kept: a store need not
/// tell it from a missing key. The records are finitely many afterwards,
/// wherever the store came from.
pub fn storage_write(store: &mut GlobalStorage, key: &[u8], value: &[u8])
    requires
        value@.len() > 0,
    ensures
        final(store)@ == write_spec(old(store)@, key@, value@),
        final(store)@.records.dom().finite(),
{
    memory_storage_set(&mut store.storage, key, value);
    assert(store@.cursors =~= old(store)@.cursors);
}

/// Removes the record under `key`, if there is one. The records are
/// finitely many afterwards, wherever the store came from.
pub fn storage_remove(store: &mut GlobalStorage, key: &[u8])
    ensures
        final(store)@ == remove_spec(old(store)@, key@),
        final(store)@.records.dom().finite(),
{
    memory_storage_remove(&mut store.storage, key);
    assert(store@.cursors =~= old(store)@.cursors);
}

/// Where a key is first in its range, `first_record` is its record.
pub proof fn lemma_first_record_some(
    records: Map<Seq<u8>, Seq<u8>>,
    start: Option<Seq<u8>>,
    end: Option<Seq<u8>>,
    direction: IteratorDirection,
    key: Seq<u8>,
)
    requires
        is_first_in_range(records, start, end, direction, key),
    ensures
        first_record(records, start, end, direction) == Some((key, records[key])),
{
    let chosen = choose|k: Seq<u8>| is_first_in_range(records, start, end, direction, k);
    lemma_first_in_range_unique(records, start, end, direction, key, chosen);
}

/// Where no key lies in the range, there is no first record.
pub proof fn lemma_first_record_none(
    records: Map<Seq<u8>, Seq<u8>>,
    start: Option<Seq<u8>>,
    end: Option<Seq<u8>>,
    direction: IteratorDirection,
)
    requires
        none_in_range(records, start, end),
    ensures
        first_record(records, start, end, direction).is_none(),
{
    if exists|k: Seq<u8>| is_first_in_range(records, start, end, direction, k) {
        let k = choose|k: Seq<u8>| is_first_in_range(records, start, end, direction, k);
        assert(records.contains_key(k));
    }
}

/// Among finitely many records, a range that holds a key has a first one:
/// `first_record` is `None` only where no key lies in the range, and
/// otherwise the record of the key that is first in the range.
pub proof fn lemma_first_record_found(
    records: Map<Seq<u8>, Seq<u8>>,
    start: Option<Seq<u8>>,
    end: Option<Seq<u8>>,
    direction: IteratorDirection,
)
    requires
        records.dom().finite(),
    ensures
        match first_record(records, start, end, direction) {
            Some((key, value)) => is_first_in_range(records, start, end, direction, key) && value
                == records[key],
            None => none_in_range(records, start, end),
        },
{
    let ranged = records.dom().filter(|key: Seq<u8>| in_range(key, start, end));
    records.dom().lemma_len_filter(|key: Seq<u8>| in_range(key, start, end));
    if ranged.len() > 0 {
        match direction {
            IteratorDirection::Ascending => {
                crate::bytes::lemma_finite_set_has_least(ranged);
                let least = choose|least: Seq<u8>| #[trigger]
                    ranged.contains(least) && forall|key: Seq<u8>|
                        ranged.contains(key) ==> lex_le(least, key);
                assert forall|other: Seq<u8>| #[trigger]
                    records.contains_key(other) && in_range(other, start, end) implies lex_le(
                    least,
                    other,
                ) by {
                    assert(ranged.contains(other));
                }
                assert(is_first_in_range(records, start, end, direction, least));
            },
            IteratorDirection::Descending => {
                crate::bytes::lemma_finite_set_has_greatest(ranged);
                let greatest = choose|greatest: Seq<u8>| #[trigger]
                    ranged.contains(greatest) && forall|key: Seq<u8>|
                        ranged.contains(key) ==> lex_le(key, greatest);
                assert forall|other: Seq<u8>| #[trigger]
                    records.contains_key(other) && in_range(other, start, end) implies lex_le(
                    other,
                    greatest,
                ) by {
                    assert(ranged.contains(other));
                }
                assert(is_first_in_range(records, start, end, direction, greatest));
            },
        }
    } else {
        assert forall|key: Seq<u8>| #[trigger] records.contains_key(key) implies !in_range(
            key,
            start,
            end,
        ) by {
            if in_range(key, start, end) {
                assert(ranged.contains(key));
            }
        }
        lemma_first_record_none(records, start, end, direction);
    }
}

/// The first record of the range in the store, by the store's own walk.
fn first_record_of(
    store: &GlobalStorage,
    start: Option<&[u8]>,
    end: Option<&[u8]>,
    direction: IteratorDirection,
) -> (record: Option<(Vec<u8>, Vec<u8>)>)
    ensures
        opt_record(record) == first_record(
            store@.records,
            opt_bytes(start),
            opt_bytes(end),
            direction,
        ),
{
    let record = memory_storage_first(&store.storage, start, end, direction);
    proof {
        match opt_record(record) {
            Some((key, value)) => {
                lemma_first_record_some(
                    store@.records,
                    opt_bytes(start),
                    opt_bytes(end),
                    direction,
                    key,
                );
            },
            None => {
                lemma_first_record_none(
                    store@.records,
                    opt_bytes(start),
                    opt_bytes(end),
                    direction,
                );
            },
        }
    }
    record
}

/// An owned copy of an optional byte slice.
pub(crate) fn opt_to_vec(bytes: Option<&[u8]>) -> (copy: Option<Vec<u8>>)
    ensures
        opt_vec_bytes(copy) == opt_bytes(bytes),
{
    match bytes {
        Some(b) => {
            let mut v: Vec<u8> = Vec::new();
            v.extend_from_slice(b);
            assert(v@ =~= b@);
            Some(v)
        },
        None => None,
    }
}

/// Opens a cursor over the keys from `start` on and before `end`, in the
/// given direction, and returns its identifier. The cursor already holds the
/// first record of the range; over a range without records none is kept, and
/// the identifier then stands for a cursor that has ended.
pub fn storage_iter_new(
    store: &mut GlobalStorage,
    start: Option<&[u8]>,
    end: Option<&[u8]>,
    direction: IteratorDirection,
) -> (id: StorageIterId)
    ensures
        id.0 == old(store)@.next_iter_id,
        final(store)@ == iter_new_spec(old(store)@, opt_bytes(start), opt_bytes(end), direction),
{
    let iter_id = store.iter_seq;
    store.iter_seq = store.iter_seq.wrapping_add(1);
    let first = first_record_of(store, start, end, direction);
    if let Some(next_record) = first {
        let bound = match direction {
            IteratorDirection::Ascending => opt_to_vec(end),
            IteratorDirection::Descending => opt_to_vec(start),
        };
        let state = IterState { next_record, end: bound, direction, storage_nonce: store.storage_seq };
        store.iter_states.insert(iter_id, state);
        assert(store@.cursors =~= old(store)@.cursors.insert(iter_id, state@));
    } else {
        assert(store@.cursors =~= old(store)@.cursors);
    }
    StorageIterId(iter_id)
}

/// The bytes of `key` followed by one zero byte: the least byte string that
/// comes after `key`.
fn successor_key(key: &Vec<u8>) -> (next: Vec<u8>)
    ensures
        next@ == key@.push(0u8),
{
    let mut next: Vec<u8> = Vec::new();
    next.extend_from_slice(key.as_slice());
    next.push(0);
    assert(next@ =~= key@.push(0u8));
    next
}

/// One step of the cursor `iter`: hands out the record that the cursor holds
/// and moves the cursor to the record that follows in the store as it is
/// now, or ends it where none follows. An unknown or ended cursor gives
/// `None`; so does one opened before the records were last replaced, which
/// is thereby ended.
pub fn storage_iter_next_pair(store: &mut GlobalStorage, iter: StorageIterId) -> (record: Option<
    (Vec<u8>, Vec<u8>),
>)
    ensures
        opt_record(record) == iter_next_record(old(store)@, iter.0),
        final(store)@ == iter_next_store(old(store)@, iter.0),
{
    let id = iter.0;
    match store.iter_states.remove(&id) {
        None => {
            assert(store@.cursors =~= old(store)@.cursors);
            None
        },
        Some(state) => {
            assert(state@ == old(store)@.cursors[id]);
            if state.storage_nonce < store.storage_seq {
                assert(store@.cursors =~= old(store)@.cursors.remove(id));
                return None;
            }
            let IterState { next_record, end, direction, storage_nonce } = state;
            let following = match direction {
                IteratorDirection::Ascending => {
                    let next_key = successor_key(&next_record.0);
                    match &end {
                        Some(e) => first_record_of(
                            store,
                            Some(next_key.as_slice()),
                            Some(e.as_slice()),
                            direction,
                        ),
                        None => first_record_of(store, Some(next_key.as_slice()), None, direction),
                    }
                },
                IteratorDirection::Descending => {
                    match &end {
                        Some(e) => first_record_of(
                            store,
                            Some(e.as_slice()),
                            Some(next_record.0.as_slice()),
                            direction,
                        ),
                        None => first_record_of(
                            store,
                            None,
                            Some(next_record.0.as_slice()),
                            direction,
                        ),
                    }
                },
            };
            assert(opt_record(following) == following_record(old(store)@.records, state@));
            match following {
                Some(record) => {
                    let moved = IterState { next_record: record, end, direction, storage_nonce };
                    store.iter_states.insert(id, moved);
                    assert(store@.cursors =~= old(store)@.cursors.insert(id, moved@));
                },
                None => {
                    assert(store@.cursors =~= old(store)@.cursors.remove(id));
                },
            }
            Some(next_record)
        },
    }
}

/// One step of the cursor `iter`, of which only the key is kept.
pub fn storage_iter_next_key(store: &mut GlobalStorage, iter: StorageIterId) -> (key: Option<
    Vec<u8>,
>)
    ensures
        opt_vec_bytes(key) == match iter_next_record(old(store)@, iter.0) {
            Some((k, v)) => Some(k),
            None => None,
        },
        final(store)@ == iter_next_store(old(store)@, iter.0),
{
    match storage_iter_next_pair(store, iter) {
        Some(pair) => Some(pair.0),
        None => None,
    }
}

/// One step of the cursor `iter`, of which only the value is kept.
pub fn storage_iter_next_value(store: &mut GlobalStorage, iter: StorageIterId) -> (value: Option<
    Vec<u8>,
>)
    ensures
        opt_vec_bytes(value) == match iter_next_record(old(store)@, iter.0) {
            Some((k, v)) => Some(v),
            None => None,
        },
        final(store)@ == iter_next_store(old(store)@, iter.0),
{
    match storage_iter_next_pair(store, iter) {
        Some(pair) => Some(pair.1),
        None => None,
    }
}

/// Reads the record under `key` as a value of type `T`. A missing record
/// is `Ok(None)`; a record whose bytes do not parse is an error, never a
/// missing record.
pub fn storage_read_item<T: SerializableItem>(store: &GlobalStorage, key: &[u8]) -> (result: Result<
    Option<OZeroCopy<T>>,
    StdError,
>)
    ensures
        match result {
            Ok(None) => !store@.records.contains_key(key@),
            Ok(Some(cell)) => store@.records.contains_key(key@) && T::decoding(
                store@.records[key@],
            ) == Some(cell@),
            Err(error) => store@.records.contains_key(key@) && T::decoding(
                store@.records[key@],
            ).is_none() && error == StdError::ParseErr,
        },
{
    match storage_read(store, key) {
        Some(bytes) => match OZeroCopy::new(bytes) {
            Ok(cell) => Ok(Some(cell)),
            Err(error) => Err(error),
        },
        None => Ok(None),
    }
}

/// Writes `value` under `key`: the record holds the encoding of the value,
/// whether the value handed out its bytes by reference or in a buffer of
/// their own. A value without an encoding is an error and leaves the store
/// as it was. An empty encoding cannot be kept.
pub fn storage_write_item<T: SerializableItem>(
    store: &mut GlobalStorage,
    key: &[u8],
    value: &T,
) -> (result: Result<(), StdError>)
    requires
        T::encoding(value@) matches Some(bytes) ==> bytes.len() > 0,
    ensures
        match result {
            Ok(()) => T::encoding(value@).is_some() && final(store)@ == write_spec(
                old(store)@,
                key@,
                T::encoding(value@).unwrap(),
            ) && final(store)@.records.dom().finite(),
            Err(error) => T::encoding(value@).is_none() && error == StdError::SerializeErr
                && final(store)@ == old(store)@,
        },
{
    if let Some(bytes) = value.serialize_as_ref() {
        storage_write(store, key, bytes);
    } else {
        match value.serialize_to_owned() {
            Ok(bytes) => {
                storage_write(store, key, bytes.as_slice());
            },
            Err(error) => {
                return Err(error);
            },
        }
    }
    Ok(())
}

/// **What is written is read.** After a value is written under a key, the
/// record under the key stands for the value, and the records under all
/// other keys are as they were.
pub proof fn lemma_written_is_read<T: SerializableItem>(
    s: StorageView,
    key: Seq<u8>,
    value: T,
    other: Seq<u8>,
)
    requires
        T::encoding(value@).is_some(),
    ensures
        write_spec(s, key, T::encoding(value@).unwrap()).records.contains_key(key),
        T::decoding(write_spec(s, key, T::encoding(value@).unwrap()).records[key]) == Some(
            value@,
        ),
        other != key ==> write_spec(s, key, T::encoding(value@).unwrap()).records.contains_key(
            other,
        ) == s.records.contains_key(other),
        other != key && s.records.contains_key(other) ==> write_spec(
            s,
            key,
            T::encoding(value@).unwrap(),
        ).records[other] == s.records[other],
{
    T::lemma_round_trip(value);
}

/// `prefix` begins `text`.
pub open spec fn begins(prefix: Seq<u8>, text: Seq<u8>) -> bool {
    prefix.len() <= text.len() && text.subrange(0, prefix.len() as int) == prefix
}

/// **Namespaces apart keep their keys apart.** Where neither of two
/// namespaces begins the other, no key under the one is a key under the
/// other: collections under such namespaces do not touch each other's
/// records.
pub proof fn lemma_namespaces_apart(a: Seq<u8>, b: Seq<u8>, x: Seq<u8>, y: Seq<u8>)
    requires
        !begins(a, b),
        !begins(b, a),
    ensures
        a + x != b + y,
{
    if a + x == b + y {
        if a.len() <= b.len() {
            assert(b.subrange(0, a.len() as int) =~= (b + y).subrange(0, a.len() as int));
            assert(a =~= (a + x).subrange(0, a.len() as int));
        } else {
            assert(a.subrange(0, b.len() as int) =~= (a + x).subrange(0, b.len() as int));
            assert(b =~= (b + y).subrange(0, b.len() as int));
        }
    }
}

} // verus!
