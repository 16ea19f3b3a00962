//! A set of values over the store: a map from the values to a byte that
//! marks their presence.

use vstd::prelude::*;
use crate::error::StdError;
use super::base::{remove_spec, write_spec, GlobalStorage};
use super::map::{map_range_spec, StoredMap, StoredMapKeyIter};
use super::SerializableItem;

verus! {

/// The byte kept under each member of a set. A store need not tell an empty
/// value from a missing key, so membership is a record with one byte, whose
/// value is never read.
pub const PRESENCE_MARKER: u8 = 254;

/// A set of values of type `V`, kept in the store under a namespace.
pub struct StoredSet<V: SerializableItem> {
    inner_map: StoredMap<V, u8>,
}

impl<V: SerializableItem> StoredSet<V> {
    /// The namespace of the set.
    pub closed spec fn namespace(&self) -> Seq<u8> {
        self.inner_map.namespace()
    }

    /// The key of the record that marks `value` as a member.
    pub open spec fn key_spec(&self, value: V::V) -> Seq<u8> {
        super::map::entry_key::<V>(self.namespace(), value)
    }

    /// The set under `namespace`.
    pub fn new(namespace: &'static [u8]) -> (set: Self)
        ensures
            set.namespace() == namespace@,
    {
        Self { inner_map: StoredMap::new(namespace) }
    }

    /// Whether `value` is a member of the set.
    pub fn has(&self, store: &GlobalStorage, value: &V) -> (present: bool)
        requires
            V::encoding(value@).is_some(),
        ensures
            present == store@.records.contains_key(self.key_spec(value@)),
    {
        self.inner_map.has(store, value)
    }

    /// Makes `value` a member of the set.
    pub fn add(&self, store: &mut GlobalStorage, value: &V) -> (result: Result<(), StdError>)
        requires
            V::encoding(value@).is_some(),
        ensures
            result.is_ok(),
            final(store)@ == write_spec(old(store)@, self.key_spec(value@), seq![PRESENCE_MARKER]),
    {
        proof {
            reveal_with_fuel(crate::bytes::le_bytes, 2);
            assert(crate::bytes::le_bytes(PRESENCE_MARKER as nat, 1) =~= seq![PRESENCE_MARKER]);
        }
        self.inner_map.set(store, value, &PRESENCE_MARKER)
    }

    /// Removes `value` from the set.
    pub fn remove(&self, store: &mut GlobalStorage, value: &V)
        requires
            V::encoding(value@).is_some(),
        ensures
            final(store)@ == remove_spec(old(store)@, self.key_spec(value@)),
    {
        self.inner_map.remove(store, value)
    }

    /// An iterator over all members of the set, in the order of their
    /// encodings.
    pub fn iter(&self) -> (result: Result<StoredMapKeyIter<V>, StdError>)
        ensures
            result matches Ok(it) && it@ == map_range_spec::<(), V>(
                self.namespace(),
                (),
                None,
                None,
            ).unwrap() && it.key_slicing() == self.namespace().len(),
    {
        self.inner_map.iter_keys()
    }

    /// An iterator over the members from `after` on, `after` included, and
    /// before `before`, in the order of their encodings.
    pub fn iter_range(&self, after: Option<V>, before: Option<V>) -> (result: Result<
        StoredMapKeyIter<V>,
        StdError,
    >)
        ensures
            match result {
                Ok(it) => Some(it@) == map_range_spec::<(), V>(
                    self.namespace(),
                    (),
                    after,
                    before,
                ) && it.key_slicing() == self.namespace().len(),
                Err(error) => map_range_spec::<(), V>(
                    self.namespace(),
                    (),
                    after,
                    before,
                ).is_none() && error == StdError::SerializeErr,
            },
    {
        self.inner_map.iter_range_keys(after, before)
    }
}

} // verus!
