//! A typed map over the store: each entry is a record whose key is the
//! namespace of the map followed by the encoding of the entry's key.

use vstd::prelude::*;
use vstd::slice::slice_subrange;
use std::marker::PhantomData;
use crate::error::StdError;
use crate::bytes::{lemma_lex_common_prefix, lemma_lex_irreflexive, lex_le, lex_lt};
use crate::utils::{
    all_max, lemma_lexicographic_next_covers_prefix, lexicographic_next, lexicographic_next_spec,
};
use super::iter_laws::is_remaining;
use super::base::{
    remove_spec, storage_has, storage_read, storage_read_item, storage_remove, storage_write,
    storage_write_item, write_spec, GlobalStorage,
};
use super::item::{is_default_view, AutosavingSerializableItem};
use super::{
    advance_back_by_spec, advance_by_spec, concat_byte_array_pairs, iterator_new_spec,
    next_pair_back_iter, next_pair_back_record, next_pair_back_store, next_pair_iter,
    next_pair_record, next_pair_store, nth_back_spec, nth_spec, IteratorView,
    OZeroCopy, SerializableItem, StorageKeyIterator, StoragePairIterator,
};

verus! {

/// A map from keys of type `K` to values of type `V`, kept in the store
/// under a namespace.
pub struct StoredMap<K: SerializableItem, V: SerializableItem> {
    namespace: &'static [u8],
    key_type: PhantomData<K>,
    value_type: PhantomData<V>,
}

/// The key of the record of an entry: the namespace, then the encoding of
/// the entry's key.
pub open spec fn entry_key<K: SerializableItem>(namespace: Seq<u8>, key: K::V) -> Seq<u8> {
    namespace + K::encoding(key).unwrap()
}

impl<K: SerializableItem, V: SerializableItem> StoredMap<K, V> {
    /// The namespace of the map.
    pub closed spec fn namespace(&self) -> Seq<u8> {
        self.namespace@
    }

    /// The key of the record of the entry under `key`.
    pub open spec fn key_spec(&self, key: K::V) -> Seq<u8> {
        entry_key::<K>(self.namespace(), key)
    }

    /// The map under `namespace`.
    pub fn new(namespace: &'static [u8]) -> (map: Self)
        ensures
            map.namespace() == namespace@,
    {
        Self { namespace, key_type: PhantomData, value_type: PhantomData }
    }

    /// The key of the record of the entry under `key`. The key must have an
    /// encoding.
    pub fn key(&self, key: &K) -> (bytes: Vec<u8>)
        requires
            K::encoding(key@).is_some(),
        ensures
            bytes@ == self.key_spec(key@),
    {
        if let Some(key_bytes) = key.serialize_as_ref() {
            concat_byte_array_pairs(self.namespace, key_bytes)
        } else {
            match key.serialize_to_owned() {
                Ok(key_bytes) => concat_byte_array_pairs(self.namespace, key_bytes.as_slice()),
                Err(_) => {
                    proof {
                        assert(false);
                    }
                    Vec::new()
                },
            }
        }
    }

    /// The bytes of the entry under `key`, as they are stored.
    pub fn get_raw_bytes(&self, store: &GlobalStorage, key: &K) -> (bytes: Option<Vec<u8>>)
        requires
            K::encoding(key@).is_some(),
        ensures
            bytes.is_some() == store@.records.contains_key(self.key_spec(key@)),
            bytes matches Some(b) ==> b@ == store@.records[self.key_spec(key@)],
            bytes matches Some(b) ==> b@.len() > 0,
    {
        storage_read(store, self.key(key).as_slice())
    }

    /// Stores `bytes` as the entry under `key`, as they are. Bytes that do
    /// not parse as a `V` make the entry unreadable as one.
    pub fn set_raw_bytes(&self, store: &mut GlobalStorage, key: &K, bytes: &[u8])
        requires
            K::encoding(key@).is_some(),
            bytes@.len() > 0,
        ensures
            final(store)@ == write_spec(old(store)@, self.key_spec(key@), bytes@),
    {
        storage_write(store, self.key(key).as_slice(), bytes)
    }

    /// The value of the entry under `key`: `Ok(None)` where the map has no
    /// such entry, an error where the stored bytes do not parse.
    pub fn get(&self, store: &GlobalStorage, key: &K) -> (result: Result<
        Option<OZeroCopy<V>>,
        StdError,
    >)
        requires
            K::encoding(key@).is_some(),
        ensures
            match result {
                Ok(None) => !store@.records.contains_key(self.key_spec(key@)),
                Ok(Some(cell)) => store@.records.contains_key(self.key_spec(key@)) && V::decoding(
                    store@.records[self.key_spec(key@)],
                ) == Some(cell@),
                Err(error) => store@.records.contains_key(self.key_spec(key@)) && V::decoding(
                    store@.records[self.key_spec(key@)],
                ).is_none() && error == StdError::ParseErr,
            },
    {
        storage_read_item(store, self.key(key).as_slice())
    }

    /// The value of the entry under `key` in a guard that writes it back,
    /// or `Ok(None)` where the map has no such entry.
    pub fn get_autosaving(&self, store: &GlobalStorage, key: &K) -> (result: Result<
        Option<AutosavingSerializableItem<V>>,
        StdError,
    >)
        requires
            K::encoding(key@).is_some(),
        ensures
            match result {
                Ok(None) => !store@.records.contains_key(self.key_spec(key@)),
                Ok(Some(guard)) => guard.key() == self.key_spec(key@)
                    && store@.records.contains_key(self.key_spec(key@)) && V::decoding(
                    store@.records[self.key_spec(key@)],
                ) == Some(guard@),
                Err(error) => store@.records.contains_key(self.key_spec(key@)) && V::decoding(
                    store@.records[self.key_spec(key@)],
                ).is_none() && error == StdError::ParseErr,
            },
    {
        AutosavingSerializableItem::new(store, self.key(key))
    }

    /// The value of the entry under `key` in a guard that writes it back;
    /// where the map has no such entry, the guard holds the default value.
    pub fn get_or_default_autosaving(&self, store: &GlobalStorage, key: &K) -> (result: Result<
        AutosavingSerializableItem<V>,
        StdError,
    >) where V: Default
        requires
            K::encoding(key@).is_some(),
        ensures
            match result {
                Ok(guard) => guard.key() == self.key_spec(key@) && (if store@.records.contains_key(
                    self.key_spec(key@),
                ) {
                    V::decoding(store@.records[self.key_spec(key@)]) == Some(guard@)
                } else {
                    is_default_view::<V>(guard@)
                }),
                Err(error) => store@.records.contains_key(self.key_spec(key@)) && V::decoding(
                    store@.records[self.key_spec(key@)],
                ).is_none() && error == StdError::ParseErr,
            },
    {
        AutosavingSerializableItem::new_or_default(store, self.key(key))
    }

    /// Whether the map has an entry under `key`.
    pub fn has(&self, store: &GlobalStorage, key: &K) -> (present: bool)
        requires
            K::encoding(key@).is_some(),
        ensures
            present == store@.records.contains_key(self.key_spec(key@)),
    {
        storage_has(store, self.key(key).as_slice())
    }

    /// Makes `value` the entry under `key`.
    pub fn set(&self, store: &mut GlobalStorage, key: &K, value: &V) -> (result: Result<
        (),
        StdError,
    >)
        requires
            K::encoding(key@).is_some(),
            V::encoding(value@) matches Some(bytes) ==> bytes.len() > 0,
        ensures
            match result {
                Ok(()) => V::encoding(value@).is_some() && final(store)@ == write_spec(
                    old(store)@,
                    self.key_spec(key@),
                    V::encoding(value@).unwrap(),
                ),
                Err(error) => V::encoding(value@).is_none() && error == StdError::SerializeErr
                    && final(store)@ == old(store)@,
            },
    {
        storage_write_item(store, self.key(key).as_slice(), value)
    }

    /// Removes the entry under `key`, if there is one.
    pub fn remove(&self, store: &mut GlobalStorage, key: &K)
        requires
            K::encoding(key@).is_some(),
        ensures
            final(store)@ == remove_spec(old(store)@, self.key_spec(key@)),
    {
        storage_remove(store, self.key(key).as_slice())
    }

    /// An iterator over all entries of the map, in the order of their keys'
    /// encodings: the iterator over the range without bounds.
    pub fn iter(&self) -> (result: Result<StoredMapIter<K, V>, StdError>)
        ensures
            result matches Ok(it) && it@ == map_range_spec::<(), K>(
                self.namespace(),
                (),
                None,
                None,
            ).unwrap() && it.key_slicing() == self.namespace().len(),
    {
        StoredMapIter::new(self.namespace, (), None, None)
    }

    /// An iterator over the entries with keys from `after` on, `after`
    /// included, and before `before`, in the order of their keys'
    /// encodings. A bound that is `None` leaves that side open.
    pub fn iter_range(&self, after: Option<K>, before: Option<K>) -> (result: Result<
        StoredMapIter<K, V>,
        StdError,
    >)
        ensures
            match result {
                Ok(it) => Some(it@) == map_range_spec::<(), K>(
                    self.namespace(),
                    (),
                    after,
                    before,
                ) && it.key_slicing() == self.namespace().len(),
                Err(error) => map_range_spec::<(), K>(
                    self.namespace(),
                    (),
                    after,
                    before,
                ).is_none() && error == StdError::SerializeErr,
            },
    {
        StoredMapIter::new(self.namespace, (), after, before)
    }

    /// An iterator over all keys of the map, in the order of their
    /// encodings.
    pub fn iter_keys(&self) -> (result: Result<StoredMapKeyIter<K>, StdError>)
        ensures
            result matches Ok(it) && it@ == map_range_spec::<(), K>(
                self.namespace(),
                (),
                None,
                None,
            ).unwrap() && it.key_slicing() == self.namespace().len(),
    {
        StoredMapKeyIter::new(self.namespace, (), None, None)
    }

    /// An iterator over the keys from `after` on, `after` included, and
    /// before `before`, in the order of their encodings.
    pub fn iter_range_keys(&self, after: Option<K>, before: Option<K>) -> (result: Result<
        StoredMapKeyIter<K>,
        StdError,
    >)
        ensures
            match result {
                Ok(it) => Some(it@) == map_range_spec::<(), K>(
                    self.namespace(),
                    (),
                    after,
                    before,
                ) && it.key_slicing() == self.namespace().len(),
                Err(error) => map_range_spec::<(), K>(
                    self.namespace(),
                    (),
                    after,
                    before,
                ).is_none() && error == StdError::SerializeErr,
            },
    {
        StoredMapKeyIter::new(self.namespace, (), after, before)
    }
}

/// The encoding of an optional bound, where there is a bound and it has an
/// encoding. A bound whose encoding is empty is a bound all the same.
pub open spec fn bound_encoding<K: SerializableItem>(key: Option<K>) -> Option<Seq<u8>> {
    match key {
        Some(k) => K::encoding(k@),
        None => None,
    }
}

/// Every bound that is given has an encoding.
pub open spec fn bound_encodes<K: SerializableItem>(key: Option<K>) -> bool {
    key matches Some(k) ==> K::encoding(k@).is_some()
}

/// The first key of the records that a range of a map covers: with a bound,
/// the key of the bound; without one, the namespace and prefix themselves.
pub open spec fn range_start(
    namespace: Seq<u8>,
    prefix: Seq<u8>,
    start: Option<Seq<u8>>,
) -> Seq<u8> {
    match start {
        Some(encoded) => namespace + prefix + encoded,
        None => namespace + prefix,
    }
}

/// The key before which a range of a map ends: with a bound, the key of the
/// bound; without one, the upper bound of the scan over the namespace and
/// prefix.
pub open spec fn range_end(namespace: Seq<u8>, prefix: Seq<u8>, end: Option<Seq<u8>>) -> Seq<u8> {
    match end {
        Some(encoded) => namespace + prefix + encoded,
        None => lexicographic_next_spec(namespace + prefix),
    }
}

/// The iterator over a range of a map, before its first step; `None` where
/// the prefix or a bound has no encoding.
pub open spec fn map_range_spec<P: SerializableItem, K: SerializableItem>(
    namespace: Seq<u8>,
    key_prefix: P,
    start_key: Option<K>,
    end_key: Option<K>,
) -> Option<IteratorView> {
    if P::encoding(key_prefix@).is_some() && bound_encodes(start_key) && bound_encodes(end_key) {
        Some(
            iterator_new_spec(
                Some(
                    range_start(
                        namespace,
                        P::encoding(key_prefix@).unwrap(),
                        bound_encoding(start_key),
                    ),
                ),
                Some(
                    range_end(
                        namespace,
                        P::encoding(key_prefix@).unwrap(),
                        bound_encoding(end_key),
                    ),
                ),
            ),
        )
    } else {
        None
    }
}

/// The bytes of an optional bound: `None` where no bound is given.
fn serialize_bound<K: SerializableItem>(key: Option<K>) -> (result: Result<
    Option<Vec<u8>>,
    StdError,
>)
    ensures
        match result {
            Ok(bytes) => bound_encodes(key) && super::base::opt_vec_bytes(bytes) == bound_encoding(
                key,
            ),
            Err(error) => !bound_encodes(key) && error == StdError::SerializeErr,
        },
{
    match key {
        Some(k) => match k.serialize_to_owned() {
            Ok(bytes) => Ok(Some(bytes)),
            Err(error) => Err(error),
        },
        None => Ok(None),
    }
}

/// The two keys between which the records of a range lie, and the number of
/// bytes that come before the encoded key in each of them.
///
/// The range starts at the namespace and prefix followed by the encoding of
/// `start_key`, where one is given. It ends before the namespace and prefix
/// followed by the encoding of `end_key`, where one is given, even where
/// that encoding is empty; only without an `end_key` does it end at the
/// upper bound of the scan over the namespace and prefix.
pub fn prefixed_key_range_to_byte_prefixes<P: SerializableItem, K: SerializableItem>(
    namespace: &[u8],
    key_prefix: P,
    start_key: Option<K>,
    end_key: Option<K>,
) -> (result: Result<(Vec<u8>, Vec<u8>, usize), StdError>)
    ensures
        match result {
            Ok((start, end, slicing)) => {
                &&& P::encoding(key_prefix@).is_some()
                &&& bound_encodes(start_key)
                &&& bound_encodes(end_key)
                &&& start@ == range_start(
                    namespace@,
                    P::encoding(key_prefix@).unwrap(),
                    bound_encoding(start_key),
                )
                &&& end@ == range_end(
                    namespace@,
                    P::encoding(key_prefix@).unwrap(),
                    bound_encoding(end_key),
                )
                &&& slicing == namespace@.len() + P::encoding(key_prefix@).unwrap().len()
            },
            Err(error) => map_range_spec(namespace@, key_prefix, start_key, end_key).is_none()
                && error == StdError::SerializeErr,
        },
{
    let prefix_bytes = match key_prefix.serialize_to_owned() {
        Ok(bytes) => bytes,
        Err(error) => {
            return Err(error);
        },
    };
    let start_bytes = match serialize_bound(start_key) {
        Ok(bytes) => bytes,
        Err(error) => {
            return Err(error);
        },
    };
    let end_bytes = match serialize_bound(end_key) {
        Ok(bytes) => bytes,
        Err(error) => {
            return Err(error);
        },
    };
    let full_prefix = concat_byte_array_pairs(namespace, prefix_bytes.as_slice());
    let slicing = full_prefix.len();
    let end = match end_bytes {
        Some(encoded) => concat_byte_array_pairs(full_prefix.as_slice(), encoded.as_slice()),
        None => lexicographic_next(full_prefix.as_slice()),
    };
    let start = match start_bytes {
        Some(encoded) => concat_byte_array_pairs(full_prefix.as_slice(), encoded.as_slice()),
        None => full_prefix,
    };
    Ok((start, end, slicing))
}

/// A double-ended iterator over the entries of a range of a map.
///
/// Where the keys of the map are tuples, the first parts of a key may be
/// fixed as a prefix, and `K` is then the type of what follows them.
pub struct StoredMapIter<K: SerializableItem, V: SerializableItem> {
    inner_iter: StoragePairIterator,
    key_slicing: usize,
    key_type: PhantomData<K>,
    value_type: PhantomData<V>,
}

/// What a step of an iterator over entries hands out: nothing at the end
/// of the range, else an entry or the refusal of a record that does not
/// parse.
pub open spec fn entry_view<K: SerializableItem, V: SerializableItem>(
    entry: Option<Result<(K, OZeroCopy<V>), StdError>>,
) -> Option<Result<(K::V, V::V), StdError>> {
    match entry {
        Some(Ok((key, value))) => Some(Ok((key@, value@))),
        Some(Err(error)) => Some(Err(error)),
        None => None,
    }
}

/// The key that the bytes of a record's key stand for, once the first
/// `slicing` bytes are left out.
pub open spec fn typed_key<K: SerializableItem>(key: Seq<u8>, slicing: nat) -> Option<K::V> {
    if key.len() >= slicing {
        K::decoding(key.skip(slicing as int))
    } else {
        None
    }
}

/// The entry that a record stands for: its key without the first `slicing`
/// bytes, and its value. A record of which the key or the value does not
/// parse is a parse error; only the end of the range is `None`.
pub open spec fn typed_entry<K: SerializableItem, V: SerializableItem>(
    record: Option<(Seq<u8>, Seq<u8>)>,
    slicing: nat,
) -> Option<Result<(K::V, V::V), StdError>> {
    match record {
        Some((key, value)) => match (typed_key::<K>(key, slicing), V::decoding(value)) {
            (Some(k), Some(v)) => Some(Ok((k, v))),
            _ => Some(Err(StdError::ParseErr)),
        },
        None => None,
    }
}

/// The key that bytes stand for, once the first `slicing` bytes are left
/// out.
fn parse_key<K: SerializableItem>(key_bytes: &Vec<u8>, slicing: usize) -> (key: Result<K, StdError>)
    ensures
        match key {
            Ok(k) => typed_key::<K>(key_bytes@, slicing as nat) == Some(k@),
            Err(error) => typed_key::<K>(key_bytes@, slicing as nat).is_none() && error
                == StdError::ParseErr,
        },
{
    if key_bytes.len() < slicing {
        return Err(StdError::ParseErr);
    }
    let tail = slice_subrange(key_bytes.as_slice(), slicing, key_bytes.len());
    assert(tail@ =~= key_bytes@.skip(slicing as int));
    K::deserialize_to_owned(tail)
}

/// The entry that a record stands for.
fn parse_entry<K: SerializableItem, V: SerializableItem>(
    record: Option<(Vec<u8>, Vec<u8>)>,
    slicing: usize,
) -> (entry: Option<Result<(K, OZeroCopy<V>), StdError>>)
    ensures
        entry_view(entry) == typed_entry::<K, V>(super::base::opt_record(record), slicing as nat),
{
    match record {
        Some((key_bytes, value_bytes)) => {
            let key = match parse_key::<K>(&key_bytes, slicing) {
                Ok(key) => key,
                Err(error) => {
                    return Some(Err(error));
                },
            };
            match OZeroCopy::new(value_bytes) {
                Ok(value) => Some(Ok((key, value))),
                Err(error) => Some(Err(error)),
            }
        },
        None => None,
    }
}

impl<K: SerializableItem, V: SerializableItem> View for StoredMapIter<K, V> {
    type V = IteratorView;

    closed spec fn view(&self) -> IteratorView {
        self.inner_iter@
    }
}

impl<K: SerializableItem, V: SerializableItem> StoredMapIter<K, V> {
    /// The number of bytes that come before the encoded key in the key of
    /// a record.
    pub closed spec fn key_slicing(&self) -> nat {
        self.key_slicing as nat
    }

    /// An iterator over the entries of the map under `namespace` whose keys
    /// start with `key_prefix`, from `start_key` on, `start_key` included,
    /// and before `end_key`.
    pub fn new<P: SerializableItem>(
        namespace: &[u8],
        key_prefix: P,
        start_key: Option<K>,
        end_key: Option<K>,
    ) -> (result: Result<Self, StdError>)
        ensures
            match result {
                Ok(it) => Some(it@) == map_range_spec(namespace@, key_prefix, start_key, end_key)
                    && it.key_slicing() == namespace@.len() + P::encoding(
                    key_prefix@,
                ).unwrap().len(),
                Err(error) => map_range_spec(namespace@, key_prefix, start_key, end_key).is_none()
                    && error == StdError::SerializeErr,
            },
    {
        match prefixed_key_range_to_byte_prefixes(namespace, key_prefix, start_key, end_key) {
            Ok((start, end, key_slicing)) => Ok(
                Self {
                    inner_iter: StoragePairIterator::new(
                        Some(start.as_slice()),
                        Some(end.as_slice()),
                    ),
                    key_slicing,
                    key_type: PhantomData,
                    value_type: PhantomData,
                },
            ),
            Err(error) => Err(error),
        }
    }

    /// Skips `n` entries from the front without parsing them.
    pub fn advance_by(&mut self, store: &mut GlobalStorage, n: usize) -> (result: Result<
        (),
        usize,
    >)
        ensures
            final(self)@ == advance_by_spec(old(self)@, old(store)@, n as nat).0,
            final(store)@ == advance_by_spec(old(self)@, old(store)@, n as nat).1,
            final(self).key_slicing() == old(self).key_slicing(),
            match result {
                Ok(()) => advance_by_spec(old(self)@, old(store)@, n as nat).2 == 0,
                Err(left) => left > 0 && left == advance_by_spec(
                    old(self)@,
                    old(store)@,
                    n as nat,
                ).2,
            },
    {
        self.inner_iter.0.advance_by(store, n)
    }

    /// Skips `n` entries from the back without parsing them.
    pub fn advance_back_by(&mut self, store: &mut GlobalStorage, n: usize) -> (result: Result<
        (),
        usize,
    >)
        ensures
            final(self)@ == advance_back_by_spec(old(self)@, old(store)@, n as nat).0,
            final(store)@ == advance_back_by_spec(old(self)@, old(store)@, n as nat).1,
            final(self).key_slicing() == old(self).key_slicing(),
            match result {
                Ok(()) => advance_back_by_spec(old(self)@, old(store)@, n as nat).2 == 0,
                Err(left) => left > 0 && left == advance_back_by_spec(
                    old(self)@,
                    old(store)@,
                    n as nat,
                ).2,
            },
    {
        self.inner_iter.0.advance_back_by(store, n)
    }

    /// The next entry from the front: `None` at the end of the range, and
    /// a parse error for a record whose key or value does not parse. The
    /// iterator has stepped over such a record all the same.
    pub fn next(&mut self, store: &mut GlobalStorage) -> (entry: Option<
        Result<(K, OZeroCopy<V>), StdError>,
    >)
        ensures
            entry_view(entry) == typed_entry::<K, V>(
                next_pair_record(old(self)@, old(store)@),
                old(self).key_slicing(),
            ),
            final(self)@ == next_pair_iter(old(self)@, old(store)@),
            final(store)@ == next_pair_store(old(self)@, old(store)@),
            final(self).key_slicing() == old(self).key_slicing(),
    {
        let record = self.inner_iter.next(store);
        parse_entry(record, self.key_slicing)
    }

    /// Skips `n` entries from the front and hands out the one after them.
    pub fn nth(&mut self, store: &mut GlobalStorage, n: usize) -> (entry: Option<
        Result<(K, OZeroCopy<V>), StdError>,
    >)
        ensures
            entry_view(entry) == typed_entry::<K, V>(
                nth_spec(old(self)@, old(store)@, n as nat).2,
                old(self).key_slicing(),
            ),
            final(self)@ == nth_spec(old(self)@, old(store)@, n as nat).0,
            final(store)@ == nth_spec(old(self)@, old(store)@, n as nat).1,
            final(self).key_slicing() == old(self).key_slicing(),
    {
        match self.advance_by(store, n) {
            Ok(()) => self.next(store),
            Err(_) => None,
        }
    }

    /// The next entry from the back: `None` at the end of the range, and a
    /// parse error for a record whose key or value does not parse.
    pub fn next_back(&mut self, store: &mut GlobalStorage) -> (entry: Option<
        Result<(K, OZeroCopy<V>), StdError>,
    >)
        ensures
            entry_view(entry) == typed_entry::<K, V>(
                next_pair_back_record(old(self)@, old(store)@),
                old(self).key_slicing(),
            ),
            final(self)@ == next_pair_back_iter(old(self)@, old(store)@),
            final(store)@ == next_pair_back_store(old(self)@, old(store)@),
            final(self).key_slicing() == old(self).key_slicing(),
    {
        let record = self.inner_iter.next_back(store);
        parse_entry(record, self.key_slicing)
    }

    /// Skips `n` entries from the back, then hands out the next entry from
    /// the front.
    pub fn nth_back(&mut self, store: &mut GlobalStorage, n: usize) -> (entry: Option<
        Result<(K, OZeroCopy<V>), StdError>,
    >)
        ensures
            entry_view(entry) == typed_entry::<K, V>(
                nth_back_spec(old(self)@, old(store)@, n as nat).2,
                old(self).key_slicing(),
            ),
            final(self)@ == nth_back_spec(old(self)@, old(store)@, n as nat).0,
            final(store)@ == nth_back_spec(old(self)@, old(store)@, n as nat).1,
            final(self).key_slicing() == old(self).key_slicing(),
    {
        match self.advance_back_by(store, n) {
            Ok(()) => self.next(store),
            Err(_) => None,
        }
    }
}

/// A double-ended iterator over the keys of a range of a map.
pub struct StoredMapKeyIter<K: SerializableItem> {
    inner_iter: StorageKeyIterator,
    key_slicing: usize,
    key_type: PhantomData<K>,
}

/// What a step of an iterator over keys hands out: nothing at the end of
/// the range, else a key or the refusal of one that does not parse.
pub open spec fn key_view<K: SerializableItem>(key: Option<Result<K, StdError>>) -> Option<
    Result<K::V, StdError>,
> {
    match key {
        Some(Ok(k)) => Some(Ok(k@)),
        Some(Err(error)) => Some(Err(error)),
        None => None,
    }
}

/// The key that the key of a record stands for. A key that does not parse
/// is a parse error; only the end of the range is `None`.
pub open spec fn typed_record_key<K: SerializableItem>(
    record: Option<(Seq<u8>, Seq<u8>)>,
    slicing: nat,
) -> Option<Result<K::V, StdError>> {
    match record {
        Some((key, value)) => match typed_key::<K>(key, slicing) {
            Some(k) => Some(Ok(k)),
            None => Some(Err(StdError::ParseErr)),
        },
        None => None,
    }
}

/// The key that optional key bytes stand for.
fn parse_optional_key<K: SerializableItem>(key_bytes: Option<Vec<u8>>, slicing: usize) -> (key:
    Option<Result<K, StdError>>)
    ensures
        key_view(key) == match key_bytes {
            Some(bytes) => match typed_key::<K>(bytes@, slicing as nat) {
                Some(k) => Some(Ok(k)),
                None => Some(Err(StdError::ParseErr)),
            },
            None => None,
        },
{
    match key_bytes {
        Some(bytes) => Some(parse_key::<K>(&bytes, slicing)),
        None => None,
    }
}

impl<K: SerializableItem> View for StoredMapKeyIter<K> {
    type V = IteratorView;

    closed spec fn view(&self) -> IteratorView {
        self.inner_iter@
    }
}

impl<K: SerializableItem> StoredMapKeyIter<K> {
    /// The number of bytes that come before the encoded key in the key of
    /// a record.
    pub closed spec fn key_slicing(&self) -> nat {
        self.key_slicing as nat
    }

    /// An iterator over the keys of the map under `namespace` that start
    /// with `key_prefix`, from `start_key` on, `start_key` included, and
    /// before `end_key`.
    pub fn new<P: SerializableItem>(
        namespace: &[u8],
        key_prefix: P,
        start_key: Option<K>,
        end_key: Option<K>,
    ) -> (result: Result<Self, StdError>)
        ensures
            match result {
                Ok(it) => Some(it@) == map_range_spec(namespace@, key_prefix, start_key, end_key)
                    && it.key_slicing() == namespace@.len() + P::encoding(
                    key_prefix@,
                ).unwrap().len(),
                Err(error) => map_range_spec(namespace@, key_prefix, start_key, end_key).is_none()
                    && error == StdError::SerializeErr,
            },
    {
        match prefixed_key_range_to_byte_prefixes(namespace, key_prefix, start_key, end_key) {
            Ok((start, end, key_slicing)) => Ok(
                Self {
                    inner_iter: StorageKeyIterator::new(
                        Some(start.as_slice()),
                        Some(end.as_slice()),
                    ),
                    key_slicing,
                    key_type: PhantomData,
                },
            ),
            Err(error) => Err(error),
        }
    }

    /// Skips `n` keys from the front without parsing them.
    pub fn advance_by(&mut self, store: &mut GlobalStorage, n: usize) -> (result: Result<
        (),
        usize,
    >)
        ensures
            final(self)@ == advance_by_spec(old(self)@, old(store)@, n as nat).0,
            final(store)@ == advance_by_spec(old(self)@, old(store)@, n as nat).1,
            final(self).key_slicing() == old(self).key_slicing(),
            match result {
                Ok(()) => advance_by_spec(old(self)@, old(store)@, n as nat).2 == 0,
                Err(left) => left > 0 && left == advance_by_spec(
                    old(self)@,
                    old(store)@,
                    n as nat,
                ).2,
            },
    {
        self.inner_iter.0.advance_by(store, n)
    }

    /// Skips `n` keys from the back without parsing them.
    pub fn advance_back_by(&mut self, store: &mut GlobalStorage, n: usize) -> (result: Result<
        (),
        usize,
    >)
        ensures
            final(self)@ == advance_back_by_spec(old(self)@, old(store)@, n as nat).0,
            final(store)@ == advance_back_by_spec(old(self)@, old(store)@, n as nat).1,
            final(self).key_slicing() == old(self).key_slicing(),
            match result {
                Ok(()) => advance_back_by_spec(old(self)@, old(store)@, n as nat).2 == 0,
                Err(left) => left > 0 && left == advance_back_by_spec(
                    old(self)@,
                    old(store)@,
                    n as nat,
                ).2,
            },
    {
        self.inner_iter.0.advance_back_by(store, n)
    }

    /// The next key from the front: `None` at the end of the range, and a
    /// parse error for a key that does not parse. The iterator has stepped
    /// over such a key all the same.
    pub fn next(&mut self, store: &mut GlobalStorage) -> (key: Option<Result<K, StdError>>)
        ensures
            key_view(key) == typed_record_key::<K>(
                next_pair_record(old(self)@, old(store)@),
                old(self).key_slicing(),
            ),
            final(self)@ == next_pair_iter(old(self)@, old(store)@),
            final(store)@ == next_pair_store(old(self)@, old(store)@),
            final(self).key_slicing() == old(self).key_slicing(),
    {
        let key_bytes = self.inner_iter.next(store);
        parse_optional_key(key_bytes, self.key_slicing)
    }

    /// Skips `n` keys from the front and hands out the one after them.
    pub fn nth(&mut self, store: &mut GlobalStorage, n: usize) -> (key: Option<
        Result<K, StdError>,
    >)
        ensures
            key_view(key) == typed_record_key::<K>(
                nth_spec(old(self)@, old(store)@, n as nat).2,
                old(self).key_slicing(),
            ),
            final(self)@ == nth_spec(old(self)@, old(store)@, n as nat).0,
            final(store)@ == nth_spec(old(self)@, old(store)@, n as nat).1,
            final(self).key_slicing() == old(self).key_slicing(),
    {
        match self.advance_by(store, n) {
            Ok(()) => self.next(store),
            Err(_) => None,
        }
    }

    /// The next key from the back: `None` at the end of the range, and a
    /// parse error for a key that does not parse.
    pub fn next_back(&mut self, store: &mut GlobalStorage) -> (key: Option<Result<K, StdError>>)
        ensures
            key_view(key) == typed_record_key::<K>(
                next_pair_back_record(old(self)@, old(store)@),
                old(self).key_slicing(),
            ),
            final(self)@ == next_pair_back_iter(old(self)@, old(store)@),
            final(store)@ == next_pair_back_store(old(self)@, old(store)@),
            final(self).key_slicing() == old(self).key_slicing(),
    {
        let key_bytes = self.inner_iter.next_back(store);
        parse_optional_key(key_bytes, self.key_slicing)
    }

    /// Skips `n` keys from the back, then hands out the next key from the
    /// front.
    pub fn nth_back(&mut self, store: &mut GlobalStorage, n: usize) -> (key: Option<
        Result<K, StdError>,
    >)
        ensures
            key_view(key) == typed_record_key::<K>(
                nth_back_spec(old(self)@, old(store)@, n as nat).2,
                old(self).key_slicing(),
            ),
            final(self)@ == nth_back_spec(old(self)@, old(store)@, n as nat).0,
            final(store)@ == nth_back_spec(old(self)@, old(store)@, n as nat).1,
            final(self).key_slicing() == old(self).key_slicing(),
    {
        match self.advance_back_by(store, n) {
            Ok(()) => self.next(store),
            Err(_) => None,
        }
    }
}

/// **A range includes its start and excludes its end.** Of the records
/// under the namespace of a map, the range from `after` to `before` covers
/// those whose encoded key is `after`'s or comes after it, and comes before
/// `before`'s: an entry under `after` itself is covered, one under `before`
/// is not.
pub proof fn lemma_range_includes_start_excludes_end<K: SerializableItem>(
    namespace: Seq<u8>,
    after: K,
    before: K,
    records: Map<Seq<u8>, Seq<u8>>,
    encoded_key: Seq<u8>,
)
    requires
        K::encoding(after@).is_some(),
        K::encoding(before@).is_some(),
    ensures
        map_range_spec::<(), K>(namespace, (), Some(after), Some(before)).is_some(),
        is_remaining(
            map_range_spec::<(), K>(namespace, (), Some(after), Some(before)).unwrap(),
            records,
            namespace + encoded_key,
        ) <==> (records.contains_key(namespace + encoded_key) && lex_le(
            K::encoding(after@).unwrap(),
            encoded_key,
        ) && lex_lt(encoded_key, K::encoding(before@).unwrap())),
        !is_remaining(
            map_range_spec::<(), K>(namespace, (), Some(after), Some(before)).unwrap(),
            records,
            namespace + K::encoding(before@).unwrap(),
        ),
        records.contains_key(namespace + K::encoding(after@).unwrap()) && lex_lt(
            K::encoding(after@).unwrap(),
            K::encoding(before@).unwrap(),
        ) ==> is_remaining(
            map_range_spec::<(), K>(namespace, (), Some(after), Some(before)).unwrap(),
            records,
            namespace + K::encoding(after@).unwrap(),
        ),
{
    let a = K::encoding(after@).unwrap();
    let b = K::encoding(before@).unwrap();
    let empty = Seq::<u8>::empty();
    assert(namespace + empty =~= namespace);
    assert(range_start(namespace, empty, Some(a)) == namespace + a);
    assert(range_end(namespace, empty, Some(b)) == namespace + b);
    lemma_range_between(namespace, a, b, encoded_key);
    lemma_range_between(namespace, a, b, b);
    lemma_range_between(namespace, a, b, a);
    lemma_lex_irreflexive(b);
}

/// Behind a common namespace, a key lies between two bounds where what
/// follows the namespace does.
proof fn lemma_range_between(namespace: Seq<u8>, a: Seq<u8>, b: Seq<u8>, encoded_key: Seq<u8>)
    ensures
        lex_le(namespace + a, namespace + encoded_key) == lex_le(a, encoded_key),
        lex_lt(namespace + encoded_key, namespace + b) == lex_lt(encoded_key, b),
{
    lemma_lex_common_prefix(namespace, a, encoded_key);
    lemma_lex_common_prefix(namespace, encoded_key, b);
    if a == encoded_key {
        assert(namespace + a == namespace + encoded_key);
    }
    if namespace + a == namespace + encoded_key {
        assert(a =~= (namespace + a).skip(namespace.len() as int));
        assert(encoded_key =~= (namespace + encoded_key).skip(namespace.len() as int));
    }
}

/// **The range without bounds is the whole map.** The iterator that `iter`
/// gives is the one that `iter_range` gives for no bounds: it runs from the
/// namespace to the upper bound of the scan over the namespace, and, for a
/// namespace with a byte other than `0xFF` in it, covers every record
/// whose key starts with the namespace.
pub proof fn lemma_iter_is_unbounded_range<K: SerializableItem>(
    namespace: Seq<u8>,
    records: Map<Seq<u8>, Seq<u8>>,
    encoded_key: Seq<u8>,
)
    ensures
        map_range_spec::<(), K>(namespace, (), None, None) == Some(
            iterator_new_spec(Some(namespace), Some(lexicographic_next_spec(namespace))),
        ),
        !all_max(namespace) ==> (is_remaining(
            map_range_spec::<(), K>(namespace, (), None, None).unwrap(),
            records,
            namespace + encoded_key,
        ) <==> records.contains_key(namespace + encoded_key)),
{
    let empty = Seq::<u8>::empty();
    assert(namespace + empty =~= namespace);
    assert(range_start(namespace, empty, None) =~= namespace);
    if !all_max(namespace) {
        lemma_lexicographic_next_covers_prefix(namespace, encoded_key);
    }
}

} // verus!
