//! A single stored value under a fixed key, and the guards that hold a value
//! while it is changed and write it back.

use vstd::prelude::*;
use crate::error::StdError;
use super::base::{
    remove_spec, storage_read, storage_read_item, storage_remove, storage_write_item, write_spec,
    GlobalStorage,
};
use super::{OZeroCopy, SerializableItem};

verus! {

/// A type of which one value is kept in the store, under the key that the
/// type names.
pub trait StoredItem: SerializableItem {
    /// The key of the stored value.
    spec fn namespace_spec() -> Seq<u8>;

    /// The key of the stored value.
    fn namespace() -> (namespace: &'static [u8])
        ensures
            namespace@ == Self::namespace_spec(),
    ;

    /// The value under `key`: `Ok(None)` where there is none, an error
    /// where the stored bytes do not parse.
    fn load_from_key(store: &GlobalStorage, key: &[u8]) -> (result: Result<Option<Self>, StdError>)
        ensures
            match result {
                Ok(None) => !store@.records.contains_key(key@),
                Ok(Some(value)) => store@.records.contains_key(key@) && Self::decoding(
                    store@.records[key@],
                ) == Some(value@),
                Err(error) => store@.records.contains_key(key@) && Self::decoding(
                    store@.records[key@],
                ).is_none() && error == StdError::ParseErr,
            },
    {
        match storage_read(store, key) {
            Some(data) => match Self::deserialize_to_owned(data.as_slice()) {
                Ok(value) => Ok(Some(value)),
                Err(error) => Err(error),
            },
            None => Ok(None),
        }
    }

    /// Stores the value under `key`.
    fn save_to_key(&self, store: &mut GlobalStorage, key: &[u8]) -> (result: Result<(), StdError>)
        requires
            Self::encoding(self@) matches Some(bytes) ==> bytes.len() > 0,
        ensures
            match result {
                Ok(()) => Self::encoding(self@).is_some() && final(store)@ == write_spec(
                    old(store)@,
                    key@,
                    Self::encoding(self@).unwrap(),
                ),
                Err(error) => Self::encoding(self@).is_none() && error == StdError::SerializeErr
                    && final(store)@ == old(store)@,
            },
    {
        storage_write_item(store, key, self)
    }

    /// The stored value: `Ok(None)` where there is none, an error where the
    /// stored bytes do not parse.
    fn load(store: &GlobalStorage) -> (result: Result<Option<OZeroCopy<Self>>, StdError>)
        ensures
            match result {
                Ok(None) => !store@.records.contains_key(Self::namespace_spec()),
                Ok(Some(cell)) => store@.records.contains_key(Self::namespace_spec())
                    && Self::decoding(store@.records[Self::namespace_spec()]) == Some(cell@),
                Err(error) => store@.records.contains_key(Self::namespace_spec())
                    && Self::decoding(store@.records[Self::namespace_spec()]).is_none() && error
                    == StdError::ParseErr,
            },
    {
        storage_read_item(store, Self::namespace())
    }

    /// Stores the value.
    fn save(&self, store: &mut GlobalStorage) -> (result: Result<(), StdError>)
        requires
            Self::encoding(self@) matches Some(bytes) ==> bytes.len() > 0,
        ensures
            match result {
                Ok(()) => Self::encoding(self@).is_some() && final(store)@ == write_spec(
                    old(store)@,
                    Self::namespace_spec(),
                    Self::encoding(self@).unwrap(),
                ),
                Err(error) => Self::encoding(self@).is_none() && error == StdError::SerializeErr
                    && final(store)@ == old(store)@,
            },
    {
        storage_write_item(store, Self::namespace(), self)
    }

    /// Removes the stored value.
    fn remove(store: &mut GlobalStorage)
        ensures
            final(store)@ == remove_spec(old(store)@, Self::namespace_spec()),
    {
        storage_remove(store, Self::namespace())
    }
}

/// `view` is what a default value of `T` holds: some value that
/// `T::default` may give has this view.
pub open spec fn is_default_view<T: SerializableItem + Default>(view: T::V) -> bool {
    exists|value: T| #[trigger] call_ensures(T::default, (), value) && value@ == view
}

/// A guard over the one stored value of a type: it holds the value while
/// it is read and changed, and owes the store one write, which `save` makes.
/// Dropping a guard writes nothing.
#[must_use]
pub struct AutosavingStoredItem<T: StoredItem> {
    value: OZeroCopy<T>,
}

impl<T: StoredItem> View for AutosavingStoredItem<T> {
    type V = T::V;

    closed spec fn view(&self) -> T::V {
        self.value@
    }
}

impl<T: StoredItem> AutosavingStoredItem<T> {
    /// A guard over the stored value, or `Ok(None)` where there is none.
    pub fn new(store: &GlobalStorage) -> (result: Result<Option<Self>, StdError>)
        ensures
            match result {
                Ok(None) => !store@.records.contains_key(T::namespace_spec()),
                Ok(Some(guard)) => store@.records.contains_key(T::namespace_spec())
                    && T::decoding(store@.records[T::namespace_spec()]) == Some(guard@),
                Err(error) => store@.records.contains_key(T::namespace_spec()) && T::decoding(
                    store@.records[T::namespace_spec()],
                ).is_none() && error == StdError::ParseErr,
            },
    {
        match T::load(store) {
            Ok(Some(value)) => Ok(Some(Self { value })),
            Ok(None) => Ok(None),
            Err(error) => Err(error),
        }
    }

    /// A guard over the stored value; where there is none, over the default
    /// value of the type.
    pub fn new_or_default(store: &GlobalStorage) -> (result: Result<Self, StdError>) where
        T: Default,

        ensures
            match result {
                Ok(guard) => if store@.records.contains_key(T::namespace_spec()) {
                    T::decoding(store@.records[T::namespace_spec()]) == Some(guard@)
                } else {
                    is_default_view::<T>(guard@)
                },
                Err(error) => store@.records.contains_key(T::namespace_spec()) && T::decoding(
                    store@.records[T::namespace_spec()],
                ).is_none() && error == StdError::ParseErr,
            },
    {
        match T::load(store) {
            Ok(Some(value)) => Ok(Self { value }),
            Ok(None) => {
                let value = T::default();
                assert(call_ensures(T::default, (), value) && value@ == value@);
                Ok(Self { value: OZeroCopy::from_inner(value) })
            },
            Err(error) => Err(error),
        }
    }

    /// The value that the guard holds.
    pub fn as_ref(&self) -> (value: &T)
        ensures
            value@ == self@,
    {
        self.value.as_ref()
    }

    /// The value that the guard holds, to be changed in place.
    pub fn as_mut(&mut self) -> (value: &mut T)
        ensures
            value@ == old(self)@,
            final(self)@ == final(value)@,
    {
        self.value.as_mut()
    }

    /// Ends the guard by writing its value back under the key of the type.
    pub fn save(self, store: &mut GlobalStorage) -> (result: Result<(), StdError>)
        requires
            T::encoding(self@) matches Some(bytes) ==> bytes.len() > 0,
        ensures
            match result {
                Ok(()) => T::encoding(self@).is_some() && final(store)@ == write_spec(
                    old(store)@,
                    T::namespace_spec(),
                    T::encoding(self@).unwrap(),
                ),
                Err(error) => T::encoding(self@).is_none() && error == StdError::SerializeErr
                    && final(store)@ == old(store)@,
            },
    {
        storage_write_item(store, T::namespace(), self.value.as_ref())
    }
}

/// A guard over the value under a given key: it holds the value while it is
/// read and changed, and owes the store one write, which `save` makes.
/// Dropping a guard writes nothing.
#[must_use]
pub struct AutosavingSerializableItem<T: SerializableItem> {
    value: OZeroCopy<T>,
    namespace: Vec<u8>,
}

impl<T: SerializableItem> View for AutosavingSerializableItem<T> {
    type V = T::V;

    closed spec fn view(&self) -> T::V {
        self.value@
    }
}

impl<T: SerializableItem> AutosavingSerializableItem<T> {
    /// The key that the guard writes to.
    pub closed spec fn key(&self) -> Seq<u8> {
        self.namespace@
    }

    /// A guard over the value under `namespace`, or `Ok(None)` where there
    /// is none.
    pub fn new(store: &GlobalStorage, namespace: Vec<u8>) -> (result: Result<Option<Self>, StdError>)
        ensures
            match result {
                Ok(None) => !store@.records.contains_key(namespace@),
                Ok(Some(guard)) => guard.key() == namespace@ && store@.records.contains_key(
                    namespace@,
                ) && T::decoding(store@.records[namespace@]) == Some(guard@),
                Err(error) => store@.records.contains_key(namespace@) && T::decoding(
                    store@.records[namespace@],
                ).is_none() && error == StdError::ParseErr,
            },
    {
        match storage_read_item(store, namespace.as_slice()) {
            Ok(Some(value)) => Ok(Some(Self { value, namespace })),
            Ok(None) => Ok(None),
            Err(error) => Err(error),
        }
    }

    /// A guard over the value under `namespace`; where there is none, over
    /// the default value of the type.
    pub fn new_or_default(store: &GlobalStorage, namespace: Vec<u8>) -> (result: Result<
        Self,
        StdError,
    >) where T: Default
        ensures
            match result {
                Ok(guard) => guard.key() == namespace@ && (if store@.records.contains_key(
                    namespace@,
                ) {
                    T::decoding(store@.records[namespace@]) == Some(guard@)
                } else {
                    is_default_view::<T>(guard@)
                }),
                Err(error) => store@.records.contains_key(namespace@) && T::decoding(
                    store@.records[namespace@],
                ).is_none() && error == StdError::ParseErr,
            },
    {
        match storage_read_item(store, namespace.as_slice()) {
            Ok(Some(value)) => Ok(Self { value, namespace }),
            Ok(None) => {
                let value = T::default();
                assert(call_ensures(T::default, (), value) && value@ == value@);
                Ok(Self { value: OZeroCopy::from_inner(value), namespace })
            },
            Err(error) => Err(error),
        }
    }

    /// The value that the guard holds.
    pub fn as_ref(&self) -> (value: &T)
        ensures
            value@ == self@,
    {
        self.value.as_ref()
    }

    /// The value that the guard holds, to be changed in place.
    pub fn as_mut(&mut self) -> (value: &mut T)
        ensures
            value@ == old(self)@,
            final(self)@ == final(value)@,
            final(self).key() == old(self).key(),
    {
        self.value.as_mut()
    }

    /// Ends the guard by writing its value back under its key.
    pub fn save(self, store: &mut GlobalStorage) -> (result: Result<(), StdError>)
        requires
            T::encoding(self@) matches Some(bytes) ==> bytes.len() > 0,
        ensures
            match result {
                Ok(()) => T::encoding(self@).is_some() && final(store)@ == write_spec(
                    old(store)@,
                    self.key(),
                    T::encoding(self@).unwrap(),
                ),
                Err(error) => T::encoding(self@).is_none() && error == StdError::SerializeErr
                    && final(store)@ == old(store)@,
            },
    {
        storage_write_item(store, self.namespace.as_slice(), self.value.as_ref())
    }
}

} // verus!
