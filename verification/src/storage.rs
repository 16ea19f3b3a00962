//! The storage layer: the store itself, the serialization capability of the
//! values kept in it, and the double-ended iterators over a range of keys.

use vstd::prelude::*;
use crate::bytes::{bytes_le, bytes_lt, lex_le, lex_lt};
use crate::error::StdError;
use self::base::{
    iter_new_spec, iter_next_record, iter_next_store, opt_bytes, opt_record, opt_to_vec,
    opt_vec_bytes, storage_iter_new, storage_iter_next_key, storage_iter_next_pair, GlobalStorage,
    StorageView,
};

pub mod base;
pub mod collection_laws;
pub mod fixed_layout;
pub mod item;
pub mod iter_laws;
pub mod map;
pub mod queue;
pub mod sequential;
pub mod serializable;
pub mod set;
pub mod tuples;
pub mod vec;

verus! {

/// The direction in which a cursor of the store walks the keys.
#[derive(Debug, Copy, Clone, PartialEq, Eq, Structural)]
pub enum IteratorDirection {
    Ascending,
    Descending,
}

/// The opaque identifier of a cursor that the store keeps.
#[derive(Debug, Copy, Clone, PartialEq, Eq, PartialOrd, Ord, Hash, Structural)]
pub struct StorageIterId(pub u32);

/// The bytes of `a` followed by those of `b`: how a namespace and an encoded
/// key make a key of the store.
pub fn concat_byte_array_pairs(a: &[u8], b: &[u8]) -> (result: Vec<u8>)
    ensures
        result@ == a@ + b@,
{
    let mut result: Vec<u8> = Vec::new();
    result.extend_from_slice(a);
    result.extend_from_slice(b);
    assert(result@ =~= a@ + b@);
    result
}

/// The serialization capability of a type: how its values become the bytes
/// that the store keeps, and how such bytes become values again.
///
/// The two spec functions are the contract of the type. `encoding` gives the
/// bytes that stand for a value, `decoding` the value that bytes stand for;
/// the exec functions compute them, and whatever was encoded decodes to
/// itself. A type whose layout is its wire format may hand out its bytes by
/// reference; the bytes are the same on either path.
pub trait SerializableItem: Sized + View {
    /// The bytes that stand for `value`, or `None` where it has no encoding.
    spec fn encoding(value: Self::V) -> Option<Seq<u8>>;

    /// The value that `data` stands for, or `None` where `data` does not
    /// parse.
    spec fn decoding(data: Seq<u8>) -> Option<Self::V>;

    /// What was encoded decodes to itself.
    proof fn lemma_round_trip(value: Self)
        requires
            Self::encoding(value@).is_some(),
        ensures
            Self::decoding(Self::encoding(value@).unwrap()) == Some(value@),
    ;

    /// The encoding of the value, in a buffer of its own.
    fn serialize_to_owned(&self) -> (result: Result<Vec<u8>, StdError>)
        ensures
            match result {
                Ok(bytes) => Self::encoding(self@) == Some(bytes@),
                Err(error) => Self::encoding(self@).is_none() && error == StdError::SerializeErr,
            },
    ;

    /// The encoding of the value as a view of the value itself, for a type
    /// that can give one.
    fn serialize_as_ref(&self) -> (result: Option<&[u8]>)
        ensures
            result matches Some(bytes) ==> Self::encoding(self@) == Some(bytes@),
    ;

    /// The value that `data` stands for.
    fn deserialize_to_owned(data: &[u8]) -> (result: Result<Self, StdError>)
        ensures
            match result {
                Ok(value) => Self::decoding(data@) == Some(value@),
                Err(error) => Self::decoding(data@).is_none() && error == StdError::ParseErr,
            },
    ;

    /// The value that `data` stands for, as a view of `data` itself, for a
    /// type that can be read in place.
    fn deserialize_as_ref(data: &[u8]) -> (result: Option<&Self>)
        ensures
            result matches Some(value) ==> Self::decoding(data@) == Some(value@),
    ;
}

/// The value that the front of `data` stands for, where it takes all of
/// `data`.
pub open spec fn whole_front<V>(front: Option<(V, nat)>, len: nat) -> Option<V> {
    match front {
        Some((value, taken)) => if taken == len {
            Some(value)
        } else {
            None
        },
        None => None,
    }
}

/// A serializable type whose encoding tells where it ends, so that the
/// encodings of several values can stand one after the other, as in the
/// encoding of a tuple.
pub trait SequentialItem: SerializableItem {
    /// The value that the front of `data` stands for, and the number of
    /// bytes that stand for it; `None` where the front of `data` does not
    /// parse.
    spec fn decoding_front(data: Seq<u8>) -> Option<(Self::V, nat)>;

    /// Bytes stand for a value where their front does and takes them all.
    proof fn lemma_decoding_is_whole_front(data: Seq<u8>)
        ensures
            Self::decoding(data) == whole_front(Self::decoding_front(data), data.len()),
    ;

    /// The front takes no more bytes than there are.
    proof fn lemma_front_fits(data: Seq<u8>)
        ensures
            Self::decoding_front(data) matches Some((value, taken)) ==> taken <= data.len(),
    ;

    /// The front of an encoding followed by anything is the encoded value,
    /// and takes the encoding.
    proof fn lemma_front_of_encoding(value: Self, rest: Seq<u8>)
        requires
            Self::encoding(value@).is_some(),
        ensures
            Self::decoding_front(Self::encoding(value@).unwrap() + rest) == Some(
                (value@, Self::encoding(value@).unwrap().len()),
            ),
    ;

    /// The value that the front of `data` stands for, and the number of
    /// bytes that stand for it.
    fn deserialize_front(data: &[u8]) -> (result: Result<(Self, usize), StdError>)
        ensures
            match result {
                Ok((value, taken)) => Self::decoding_front(data@) == Some((value@, taken as nat)),
                Err(error) => Self::decoding_front(data@).is_none() && error == StdError::ParseErr,
            },
    ;
}

/// A value read from the store, held behind one allocation.
///
/// A cell is made from the bytes of a record, or from a value; either way it
/// holds the value, and turns back into the bytes that stand for it.
#[derive(Debug, Clone, PartialEq, Eq)]
pub struct OZeroCopy<T: SerializableItem> {
    inner_box: Box<T>,
}

impl<T: SerializableItem> View for OZeroCopy<T> {
    type V = T::V;

    closed spec fn view(&self) -> T::V {
        (*self.inner_box)@
    }
}

impl<T: SerializableItem> OZeroCopy<T> {
    /// The cell of the value that `bytes` stand for.
    pub fn new(bytes: Vec<u8>) -> (result: Result<Self, StdError>)
        ensures
            match result {
                Ok(cell) => T::decoding(bytes@) == Some(cell@),
                Err(error) => T::decoding(bytes@).is_none() && error == StdError::ParseErr,
            },
    {
        match T::deserialize_to_owned(bytes.as_slice()) {
            Ok(value) => Ok(Self { inner_box: Box::new(value) }),
            Err(error) => Err(error),
        }
    }

    /// The cell of `value`.
    pub fn from_inner(value: T) -> (cell: Self)
        ensures
            cell@ == value@,
    {
        Self { inner_box: Box::new(value) }
    }

    /// The value of the cell.
    pub fn into_inner(self) -> (value: T)
        ensures
            value@ == self@,
    {
        *self.inner_box
    }

    /// The bytes that stand for the value of the cell.
    pub fn try_into_bytes(self) -> (result: Result<Vec<u8>, StdError>)
        ensures
            match result {
                Ok(bytes) => T::encoding(self@) == Some(bytes@),
                Err(error) => T::encoding(self@).is_none() && error == StdError::SerializeErr,
            },
    {
        self.inner_box.serialize_to_owned()
    }

    /// The value of the cell, by reference.
    pub fn as_ref(&self) -> (value: &T)
        ensures
            value@ == self@,
    {
        &*self.inner_box
    }

    /// The value of the cell, to be changed in place.
    pub fn as_mut(&mut self) -> (value: &mut T)
        ensures
            value@ == old(self)@,
            final(self)@ == final(value)@,
    {
        &mut *self.inner_box
    }

    /// Puts `value` in the cell.
    pub fn set(&mut self, value: T)
        ensures
            final(self)@ == value@,
    {
        self.inner_box = Box::new(value);
    }
}

/// The state that the three iterators over a range of keys share: a cursor
/// of the store for each direction, opened when that direction is first
/// used, and for each direction the key at which it stands.
pub struct StorageIteratorCommon {
    ascending_id: Option<StorageIterId>,
    ascending_key: Option<Vec<u8>>,
    descending_id: Option<StorageIterId>,
    descending_key: Option<Vec<u8>>,
}

/// The model of an iterator over a range of keys.
///
/// `ascending_key` is the inclusive start of the range until the front has
/// handed out a record, and from then on the key of the record it handed out
/// last. `descending_key` is the exclusive end of the range, and later the
/// key that the back handed out last. An identifier is `None` until its
/// direction is first used.
pub struct IteratorView {
    pub ascending_id: Option<u32>,
    pub ascending_key: Option<Seq<u8>>,
    pub descending_id: Option<u32>,
    pub descending_key: Option<Seq<u8>>,
}

/// The model of an iterator that has not been used yet.
pub open spec fn iterator_new_spec(start: Option<Seq<u8>>, end: Option<Seq<u8>>) -> IteratorView {
    IteratorView { ascending_id: None, ascending_key: start, descending_id: None, descending_key: end }
}

/// The iterator after its front cursor is opened, if it was not open.
pub open spec fn open_ascending_iter(it: IteratorView, s: StorageView) -> IteratorView {
    match it.ascending_id {
        Some(_) => it,
        None => IteratorView { ascending_id: Some(s.next_iter_id), ..it },
    }
}

/// The store after the iterator's front cursor is opened, if it was not open:
/// the cursor ascends from the iterator's front key to its back key.
pub open spec fn open_ascending_store(it: IteratorView, s: StorageView) -> StorageView {
    match it.ascending_id {
        Some(_) => s,
        None => iter_new_spec(
            s,
            it.ascending_key,
            it.descending_key,
            IteratorDirection::Ascending,
        ),
    }
}

/// The iterator after its back cursor is opened, if it was not open.
pub open spec fn open_descending_iter(it: IteratorView, s: StorageView) -> IteratorView {
    match it.descending_id {
        Some(_) => it,
        None => IteratorView { descending_id: Some(s.next_iter_id), ..it },
    }
}

/// The store after the iterator's back cursor is opened, if it was not open:
/// the cursor descends from the iterator's back key to its front key.
pub open spec fn open_descending_store(it: IteratorView, s: StorageView) -> StorageView {
    match it.descending_id {
        Some(_) => s,
        None => iter_new_spec(
            s,
            it.ascending_key,
            it.descending_key,
            IteratorDirection::Descending,
        ),
    }
}

/// A key fetched by the front has met the back: the back is in use and
/// stands at this key or before it.
pub open spec fn front_meets_back(it: IteratorView, key: Seq<u8>) -> bool {
    it.descending_id.is_some() && (it.descending_key matches Some(back) && lex_le(back, key))
}

/// A key fetched by the back has met the front: the front is in use and
/// stands at this key or beyond it.
pub open spec fn back_meets_front(it: IteratorView, key: Seq<u8>) -> bool {
    it.ascending_id.is_some() && (it.ascending_key matches Some(front) && lex_le(key, front))
}

/// The record that one step from the front hands out: the one that the
/// front cursor fetches, unless no record is left or the fetched key has met
/// the back.
pub open spec fn next_pair_record(it: IteratorView, s: StorageView) -> Option<(Seq<u8>, Seq<u8>)> {
    let opened = open_ascending_iter(it, s);
    match iter_next_record(open_ascending_store(it, s), opened.ascending_id.unwrap()) {
        Some((key, value)) => if front_meets_back(opened, key) {
            None
        } else {
            Some((key, value))
        },
        None => None,
    }
}

/// The iterator after one step from the front: its cursor is open, and it
/// stands at the key that was handed out, if one was.
pub open spec fn next_pair_iter(it: IteratorView, s: StorageView) -> IteratorView {
    let opened = open_ascending_iter(it, s);
    match next_pair_record(it, s) {
        Some((key, value)) => IteratorView { ascending_key: Some(key), ..opened },
        None => opened,
    }
}

/// The store after one step from the front: the front cursor is open and
/// has fetched once.
pub open spec fn next_pair_store(it: IteratorView, s: StorageView) -> StorageView {
    iter_next_store(open_ascending_store(it, s), open_ascending_iter(it, s).ascending_id.unwrap())
}

/// The record that one step from the back hands out.
pub open spec fn next_pair_back_record(it: IteratorView, s: StorageView) -> Option<
    (Seq<u8>, Seq<u8>),
> {
    let opened = open_descending_iter(it, s);
    match iter_next_record(open_descending_store(it, s), opened.descending_id.unwrap()) {
        Some((key, value)) => if back_meets_front(opened, key) {
            None
        } else {
            Some((key, value))
        },
        None => None,
    }
}

/// The iterator after one step from the back.
pub open spec fn next_pair_back_iter(it: IteratorView, s: StorageView) -> IteratorView {
    let opened = open_descending_iter(it, s);
    match next_pair_back_record(it, s) {
        Some((key, value)) => IteratorView { descending_key: Some(key), ..opened },
        None => opened,
    }
}

/// The store after one step from the back.
pub open spec fn next_pair_back_store(it: IteratorView, s: StorageView) -> StorageView {
    iter_next_store(
        open_descending_store(it, s),
        open_descending_iter(it, s).descending_id.unwrap(),
    )
}

/// The key of an optional record.
pub open spec fn record_key(record: Option<(Seq<u8>, Seq<u8>)>) -> Option<Seq<u8>> {
    match record {
        Some((key, value)) => Some(key),
        None => None,
    }
}

/// The value of an optional record.
pub open spec fn record_value(record: Option<(Seq<u8>, Seq<u8>)>) -> Option<Seq<u8>> {
    match record {
        Some((key, value)) => Some(value),
        None => None,
    }
}

/// A borrowed view of an optional byte vector.
fn opt_as_slice(bytes: &Option<Vec<u8>>) -> (slice: Option<&[u8]>)
    ensures
        opt_bytes(slice) == opt_vec_bytes(*bytes),
{
    match bytes {
        Some(b) => Some(b.as_slice()),
        None => None,
    }
}

/// An owned copy of a byte vector.
fn copy_bytes(bytes: &Vec<u8>) -> (copy: Vec<u8>)
    ensures
        copy@ == bytes@,
{
    let mut v: Vec<u8> = Vec::new();
    v.extend_from_slice(bytes.as_slice());
    assert(v@ =~= bytes@);
    v
}

impl View for StorageIteratorCommon {
    type V = IteratorView;

    closed spec fn view(&self) -> IteratorView {
        IteratorView {
            ascending_id: match self.ascending_id {
                Some(id) => Some(id.0),
                None => None,
            },
            ascending_key: opt_vec_bytes(self.ascending_key),
            descending_id: match self.descending_id {
                Some(id) => Some(id.0),
                None => None,
            },
            descending_key: opt_vec_bytes(self.descending_key),
        }
    }
}

impl StorageIteratorCommon {
    /// An iterator over the keys from `start` on and before `end`. Nothing
    /// is asked of the store until the iterator is first stepped.
    pub fn new(start: Option<&[u8]>, end: Option<&[u8]>) -> (it: Self)
        ensures
            it@ == iterator_new_spec(opt_bytes(start), opt_bytes(end)),
    {
        Self {
            ascending_id: None,
            ascending_key: opt_to_vec(start),
            descending_id: None,
            descending_key: opt_to_vec(end),
        }
    }

    /// The front cursor, opened on first use over what lies between the two
    /// keys of the iterator.
    pub fn ascending_id(&mut self, store: &mut GlobalStorage) -> (id: StorageIterId)
        ensures
            final(self)@ == open_ascending_iter(old(self)@, old(store)@),
            final(store)@ == open_ascending_store(old(self)@, old(store)@),
            Some(id.0) == final(self)@.ascending_id,
    {
        match self.ascending_id {
            Some(id) => id,
            None => {
                let id = storage_iter_new(
                    store,
                    opt_as_slice(&self.ascending_key),
                    opt_as_slice(&self.descending_key),
                    IteratorDirection::Ascending,
                );
                self.ascending_id = Some(id);
                id
            },
        }
    }

    /// The back cursor, opened on first use over what lies between the two
    /// keys of the iterator.
    pub fn descending_id(&mut self, store: &mut GlobalStorage) -> (id: StorageIterId)
        ensures
            final(self)@ == open_descending_iter(old(self)@, old(store)@),
            final(store)@ == open_descending_store(old(self)@, old(store)@),
            Some(id.0) == final(self)@.descending_id,
    {
        match self.descending_id {
            Some(id) => id,
            None => {
                let id = storage_iter_new(
                    store,
                    opt_as_slice(&self.ascending_key),
                    opt_as_slice(&self.descending_key),
                    IteratorDirection::Descending,
                );
                self.descending_id = Some(id);
                id
            },
        }
    }

    /// Whether a key fetched by the front has met the back.
    fn meets_back(&self, key: &Vec<u8>) -> (met: bool)
        ensures
            met == front_meets_back(self@, key@),
    {
        if self.descending_id.is_some() {
            match &self.descending_key {
                Some(back) => bytes_le(back.as_slice(), key.as_slice()),
                None => false,
            }
        } else {
            false
        }
    }

    /// Whether a key fetched by the back has met the front.
    fn meets_front(&self, key: &Vec<u8>) -> (met: bool)
        ensures
            met == back_meets_front(self@, key@),
    {
        if self.ascending_id.is_some() {
            match &self.ascending_key {
                Some(front) => bytes_le(key.as_slice(), front.as_slice()),
                None => false,
            }
        } else {
            false
        }
    }

    /// The next record from the front, or `None` where no record is left
    /// between the front and the back.
    pub fn next_pair(&mut self, store: &mut GlobalStorage) -> (record: Option<(Vec<u8>, Vec<u8>)>)
        ensures
            opt_record(record) == next_pair_record(old(self)@, old(store)@),
            final(self)@ == next_pair_iter(old(self)@, old(store)@),
            final(store)@ == next_pair_store(old(self)@, old(store)@),
    {
        let ascending_id = self.ascending_id(store);
        match storage_iter_next_pair(store, ascending_id) {
            None => None,
            Some((data_key, data_value)) => {
                if self.meets_back(&data_key) {
                    return None;
                }
                self.ascending_key = Some(copy_bytes(&data_key));
                Some((data_key, data_value))
            },
        }
    }

    /// The key of the next record from the front.
    pub fn next_key(&mut self, store: &mut GlobalStorage) -> (key: Option<Vec<u8>>)
        ensures
            opt_vec_bytes(key) == record_key(next_pair_record(old(self)@, old(store)@)),
            final(self)@ == next_pair_iter(old(self)@, old(store)@),
            final(store)@ == next_pair_store(old(self)@, old(store)@),
    {
        let ascending_id = self.ascending_id(store);
        match storage_iter_next_key(store, ascending_id) {
            None => None,
            Some(data_key) => {
                if self.meets_back(&data_key) {
                    return None;
                }
                self.ascending_key = Some(copy_bytes(&data_key));
                Some(data_key)
            },
        }
    }

    /// The value of the next record from the front.
    pub fn next_value(&mut self, store: &mut GlobalStorage) -> (value: Option<Vec<u8>>)
        ensures
            opt_vec_bytes(value) == record_value(next_pair_record(old(self)@, old(store)@)),
            final(self)@ == next_pair_iter(old(self)@, old(store)@),
            final(store)@ == next_pair_store(old(self)@, old(store)@),
    {
        match self.next_pair(store) {
            Some(pair) => Some(pair.1),
            None => None,
        }
    }

    /// The next record from the back, or `None` where no record is left
    /// between the front and the back.
    pub fn next_pair_back(&mut self, store: &mut GlobalStorage) -> (record: Option<
        (Vec<u8>, Vec<u8>),
    >)
        ensures
            opt_record(record) == next_pair_back_record(old(self)@, old(store)@),
            final(self)@ == next_pair_back_iter(old(self)@, old(store)@),
            final(store)@ == next_pair_back_store(old(self)@, old(store)@),
    {
        let descending_id = self.descending_id(store);
        match storage_iter_next_pair(store, descending_id) {
            None => None,
            Some((data_key, data_value)) => {
                if self.meets_front(&data_key) {
                    return None;
                }
                self.descending_key = Some(copy_bytes(&data_key));
                Some((data_key, data_value))
            },
        }
    }

    /// The key of the next record from the back.
    pub fn next_key_back(&mut self, store: &mut GlobalStorage) -> (key: Option<Vec<u8>>)
        ensures
            opt_vec_bytes(key) == record_key(next_pair_back_record(old(self)@, old(store)@)),
            final(self)@ == next_pair_back_iter(old(self)@, old(store)@),
            final(store)@ == next_pair_back_store(old(self)@, old(store)@),
    {
        let descending_id = self.descending_id(store);
        match storage_iter_next_key(store, descending_id) {
            None => None,
            Some(data_key) => {
                if self.meets_front(&data_key) {
                    return None;
                }
                self.descending_key = Some(copy_bytes(&data_key));
                Some(data_key)
            },
        }
    }

    /// The value of the next record from the back.
    pub fn next_value_back(&mut self, store: &mut GlobalStorage) -> (value: Option<Vec<u8>>)
        ensures
            opt_vec_bytes(value) == record_value(next_pair_back_record(old(self)@, old(store)@)),
            final(self)@ == next_pair_back_iter(old(self)@, old(store)@),
            final(store)@ == next_pair_back_store(old(self)@, old(store)@),
    {
        match self.next_pair_back(store) {
            Some(pair) => Some(pair.1),
            None => None,
        }
    }
}

/// A key fetched while records are skipped from the front lies at the back
/// key or beyond it.
pub open spec fn skip_meets_back(it: IteratorView, key: Seq<u8>) -> bool {
    it.descending_key matches Some(back) && lex_le(back, key)
}

/// A key fetched while records are skipped from the back lies before the
/// front key, or at it once the front is in use.
pub open spec fn skip_meets_front(it: IteratorView, key: Seq<u8>) -> bool {
    it.ascending_key matches Some(front) && (lex_lt(key, front) || (it.ascending_id.is_some()
        && key == front))
}

/// Skipping `n` records from the front of an iterator whose front cursor
/// `it.ascending_id` is open: the iterator and the store afterwards, and the
/// number of records that could not be skipped because none was left.
pub open spec fn skip_front(it: IteratorView, s: StorageView, n: nat) -> (
    IteratorView,
    StorageView,
    nat,
)
    decreases n,
{
    if n == 0 {
        (it, s, 0)
    } else {
        let id = it.ascending_id.unwrap();
        let fetched = iter_next_store(s, id);
        match iter_next_record(s, id) {
            Some((key, value)) => if skip_meets_back(it, key) {
                (it, fetched, n)
            } else {
                skip_front(IteratorView { ascending_key: Some(key), ..it }, fetched, (n - 1) as nat)
            },
            None => (it, fetched, n),
        }
    }
}

/// Skipping `n` records from the back of an iterator whose back cursor
/// `it.descending_id` is open.
pub open spec fn skip_back(it: IteratorView, s: StorageView, n: nat) -> (
    IteratorView,
    StorageView,
    nat,
)
    decreases n,
{
    if n == 0 {
        (it, s, 0)
    } else {
        let id = it.descending_id.unwrap();
        let fetched = iter_next_store(s, id);
        match iter_next_record(s, id) {
            Some((key, value)) => if skip_meets_front(it, key) {
                (it, fetched, n)
            } else {
                skip_back(IteratorView { descending_key: Some(key), ..it }, fetched, (n - 1) as nat)
            },
            None => (it, fetched, n),
        }
    }
}

/// `advance_by(n)`: the front cursor is opened, then `n` records are skipped.
pub open spec fn advance_by_spec(it: IteratorView, s: StorageView, n: nat) -> (
    IteratorView,
    StorageView,
    nat,
) {
    skip_front(open_ascending_iter(it, s), open_ascending_store(it, s), n)
}

/// `advance_back_by(n)`: the back cursor is opened, then `n` records are
/// skipped.
pub open spec fn advance_back_by_spec(it: IteratorView, s: StorageView, n: nat) -> (
    IteratorView,
    StorageView,
    nat,
) {
    skip_back(open_descending_iter(it, s), open_descending_store(it, s), n)
}

impl StorageIteratorCommon {
    /// Skips `n` records from the front without reading their values.
    /// Returns `Err` with the number of records that were not skipped, which
    /// is not zero, where fewer than `n` were left before the back.
    pub fn advance_by(&mut self, store: &mut GlobalStorage, n: usize) -> (result: Result<
        (),
        usize,
    >)
        ensures
            final(self)@ == advance_by_spec(old(self)@, old(store)@, n as nat).0,
            final(store)@ == advance_by_spec(old(self)@, old(store)@, n as nat).1,
            match result {
                Ok(()) => advance_by_spec(old(self)@, old(store)@, n as nat).2 == 0,
                Err(left) => left > 0 && left == advance_by_spec(
                    old(self)@,
                    old(store)@,
                    n as nat,
                ).2,
            },
    {
        let ascending_id = self.ascending_id(store);
        let ghost target = advance_by_spec(old(self)@, old(store)@, n as nat);
        let mut left = n;
        while left > 0
            invariant
                self@.ascending_id == Some(ascending_id.0),
                skip_front(self@, store@, left as nat) == target,
                target == advance_by_spec(old(self)@, old(store)@, n as nat),
            decreases left,
        {
            let ghost before = self@;
            let ghost store_before = store@;
            assert(skip_front(before, store_before, left as nat) == target);
            match storage_iter_next_key(store, ascending_id) {
                None => {
                    return Err(left);
                },
                Some(next_ascending_key) => {
                    let met = match &self.descending_key {
                        Some(back) => bytes_le(back.as_slice(), next_ascending_key.as_slice()),
                        None => false,
                    };
                    if met {
                        return Err(left);
                    }
                    self.ascending_key = Some(next_ascending_key);
                    left -= 1;
                },
            }
        }
        Ok(())
    }

    /// Skips `n` records from the back without reading their values.
    /// Returns `Err` with the number of records that were not skipped, which
    /// is not zero, where fewer than `n` were left beyond the front.
    pub fn advance_back_by(&mut self, store: &mut GlobalStorage, n: usize) -> (result: Result<
        (),
        usize,
    >)
        ensures
            final(self)@ == advance_back_by_spec(old(self)@, old(store)@, n as nat).0,
            final(store)@ == advance_back_by_spec(old(self)@, old(store)@, n as nat).1,
            match result {
                Ok(()) => advance_back_by_spec(old(self)@, old(store)@, n as nat).2 == 0,
                Err(left) => left > 0 && left == advance_back_by_spec(
                    old(self)@,
                    old(store)@,
                    n as nat,
                ).2,
            },
    {
        let descending_id = self.descending_id(store);
        let ghost target = advance_back_by_spec(old(self)@, old(store)@, n as nat);
        let mut left = n;
        while left > 0
            invariant
                self@.descending_id == Some(descending_id.0),
                skip_back(self@, store@, left as nat) == target,
                target == advance_back_by_spec(old(self)@, old(store)@, n as nat),
            decreases left,
        {
            let ghost before = self@;
            let ghost store_before = store@;
            assert(skip_back(before, store_before, left as nat) == target);
            match storage_iter_next_key(store, descending_id) {
                None => {
                    return Err(left);
                },
                Some(next_descending_key) => {
                    let met = match &self.ascending_key {
                        Some(front) => bytes_lt(next_descending_key.as_slice(), front.as_slice())
                            || (self.ascending_id.is_some() && bytes_le(
                            next_descending_key.as_slice(),
                            front.as_slice(),
                        )),
                        None => false,
                    };
                    if met {
                        return Err(left);
                    }
                    self.descending_key = Some(next_descending_key);
                    left -= 1;
                },
            }
        }
        Ok(())
    }
}

/// `nth(n)`: `n` records are skipped from the front; where that many were
/// left, the next record from the front is handed out.
pub open spec fn nth_spec(it: IteratorView, s: StorageView, n: nat) -> (
    IteratorView,
    StorageView,
    Option<(Seq<u8>, Seq<u8>)>,
) {
    let skipped = advance_by_spec(it, s, n);
    if skipped.2 == 0 {
        (
            next_pair_iter(skipped.0, skipped.1),
            next_pair_store(skipped.0, skipped.1),
            next_pair_record(skipped.0, skipped.1),
        )
    } else {
        (skipped.0, skipped.1, None)
    }
}

/// `nth_back(n)`: `n` records are skipped from the back; where that many
/// were left, the next record from the front is handed out. The skip
/// shortens the range at its far end and the walk goes on at its near end:
/// the record at the far end is had by `advance_back_by` and `next_back`.
pub open spec fn nth_back_spec(it: IteratorView, s: StorageView, n: nat) -> (
    IteratorView,
    StorageView,
    Option<(Seq<u8>, Seq<u8>)>,
) {
    let skipped = advance_back_by_spec(it, s, n);
    if skipped.2 == 0 {
        (
            next_pair_iter(skipped.0, skipped.1),
            next_pair_store(skipped.0, skipped.1),
            next_pair_record(skipped.0, skipped.1),
        )
    } else {
        (skipped.0, skipped.1, None)
    }
}

/// A double-ended iterator over the records, key and value, of a range.
pub struct StoragePairIterator(pub StorageIteratorCommon);

/// A double-ended iterator over the keys of a range.
pub struct StorageKeyIterator(pub StorageIteratorCommon);

/// A double-ended iterator over the values of a range.
pub struct StorageValueIterator(pub StorageIteratorCommon);

impl View for StoragePairIterator {
    type V = IteratorView;

    open spec fn view(&self) -> IteratorView {
        self.0@
    }
}

impl View for StorageKeyIterator {
    type V = IteratorView;

    open spec fn view(&self) -> IteratorView {
        self.0@
    }
}

impl View for StorageValueIterator {
    type V = IteratorView;

    open spec fn view(&self) -> IteratorView {
        self.0@
    }
}

impl StoragePairIterator {
    /// An iterator over the records with keys from `start` on and before `end`.
    pub fn new(start: Option<&[u8]>, end: Option<&[u8]>) -> (it: Self)
        ensures
            it@ == iterator_new_spec(opt_bytes(start), opt_bytes(end)),
    {
        Self(StorageIteratorCommon::new(start, end))
    }

    /// The next record from the front.
    pub fn next(&mut self, store: &mut GlobalStorage) -> (record: Option<(Vec<u8>, Vec<u8>)>)
        ensures
            opt_record(record) == next_pair_record(old(self)@, old(store)@),
            final(self)@ == next_pair_iter(old(self)@, old(store)@),
            final(store)@ == next_pair_store(old(self)@, old(store)@),
    {
        self.0.next_pair(store)
    }

    /// Skips `n` records from the front and hands out the one after them.
    pub fn nth(&mut self, store: &mut GlobalStorage, n: usize) -> (record: Option<
        (Vec<u8>, Vec<u8>),
    >)
        ensures
            final(self)@ == nth_spec(old(self)@, old(store)@, n as nat).0,
            final(store)@ == nth_spec(old(self)@, old(store)@, n as nat).1,
            opt_record(record) == nth_spec(old(self)@, old(store)@, n as nat).2,
    {
        match self.0.advance_by(store, n) {
            Ok(()) => self.next(store),
            Err(_) => None,
        }
    }

    /// The next record from the back.
    pub fn next_back(&mut self, store: &mut GlobalStorage) -> (record: Option<(Vec<u8>, Vec<u8>)>)
        ensures
            opt_record(record) == next_pair_back_record(old(self)@, old(store)@),
            final(self)@ == next_pair_back_iter(old(self)@, old(store)@),
            final(store)@ == next_pair_back_store(old(self)@, old(store)@),
    {
        self.0.next_pair_back(store)
    }

    /// Skips `n` records from the back, then hands out the next record from
    /// the front.
    pub fn nth_back(&mut self, store: &mut GlobalStorage, n: usize) -> (record: Option<
        (Vec<u8>, Vec<u8>),
    >)
        ensures
            final(self)@ == nth_back_spec(old(self)@, old(store)@, n as nat).0,
            final(store)@ == nth_back_spec(old(self)@, old(store)@, n as nat).1,
            opt_record(record) == nth_back_spec(old(self)@, old(store)@, n as nat).2,
    {
        match self.0.advance_back_by(store, n) {
            Ok(()) => self.next(store),
            Err(_) => None,
        }
    }

    /// The same iterator, handing out keys only.
    pub fn into_keys(self) -> (it: StorageKeyIterator)
        ensures
            it@ == self@,
    {
        StorageKeyIterator(self.0)
    }

    /// The same iterator, handing out values only.
    pub fn into_values(self) -> (it: StorageValueIterator)
        ensures
            it@ == self@,
    {
        StorageValueIterator(self.0)
    }
}

impl StorageKeyIterator {
    /// An iterator over the keys from `start` on and before `end`.
    pub fn new(start: Option<&[u8]>, end: Option<&[u8]>) -> (it: Self)
        ensures
            it@ == iterator_new_spec(opt_bytes(start), opt_bytes(end)),
    {
        Self(StorageIteratorCommon::new(start, end))
    }

    /// The next key from the front.
    pub fn next(&mut self, store: &mut GlobalStorage) -> (key: Option<Vec<u8>>)
        ensures
            opt_vec_bytes(key) == record_key(next_pair_record(old(self)@, old(store)@)),
            final(self)@ == next_pair_iter(old(self)@, old(store)@),
            final(store)@ == next_pair_store(old(self)@, old(store)@),
    {
        self.0.next_key(store)
    }

    /// Skips `n` keys from the front and hands out the one after them.
    pub fn nth(&mut self, store: &mut GlobalStorage, n: usize) -> (key: Option<Vec<u8>>)
        ensures
            final(self)@ == nth_spec(old(self)@, old(store)@, n as nat).0,
            final(store)@ == nth_spec(old(self)@, old(store)@, n as nat).1,
            opt_vec_bytes(key) == record_key(nth_spec(old(self)@, old(store)@, n as nat).2),
    {
        match self.0.advance_by(store, n) {
            Ok(()) => self.next(store),
            Err(_) => None,
        }
    }

    /// The next key from the back.
    pub fn next_back(&mut self, store: &mut GlobalStorage) -> (key: Option<Vec<u8>>)
        ensures
            opt_vec_bytes(key) == record_key(next_pair_back_record(old(self)@, old(store)@)),
            final(self)@ == next_pair_back_iter(old(self)@, old(store)@),
            final(store)@ == next_pair_back_store(old(self)@, old(store)@),
    {
        self.0.next_key_back(store)
    }

    /// Skips `n` keys from the back, then hands out the next key from the
    /// front.
    pub fn nth_back(&mut self, store: &mut GlobalStorage, n: usize) -> (key: Option<Vec<u8>>)
        ensures
            final(self)@ == nth_back_spec(old(self)@, old(store)@, n as nat).0,
            final(store)@ == nth_back_spec(old(self)@, old(store)@, n as nat).1,
            opt_vec_bytes(key) == record_key(nth_back_spec(old(self)@, old(store)@, n as nat).2),
    {
        match self.0.advance_back_by(store, n) {
            Ok(()) => self.next(store),
            Err(_) => None,
        }
    }

    /// The same iterator, handing out records.
    pub fn into_pairs(self) -> (it: StoragePairIterator)
        ensures
            it@ == self@,
    {
        StoragePairIterator(self.0)
    }

    /// The same iterator, handing out values only.
    pub fn into_values(self) -> (it: StorageValueIterator)
        ensures
            it@ == self@,
    {
        StorageValueIterator(self.0)
    }
}

impl StorageValueIterator {
    /// An iterator over the values under the keys from `start` on and before
    /// `end`.
    pub fn new(start: Option<&[u8]>, end: Option<&[u8]>) -> (it: Self)
        ensures
            it@ == iterator_new_spec(opt_bytes(start), opt_bytes(end)),
    {
        Self(StorageIteratorCommon::new(start, end))
    }

    /// The next value from the front.
    pub fn next(&mut self, store: &mut GlobalStorage) -> (value: Option<Vec<u8>>)
        ensures
            opt_vec_bytes(value) == record_value(next_pair_record(old(self)@, old(store)@)),
            final(self)@ == next_pair_iter(old(self)@, old(store)@),
            final(store)@ == next_pair_store(old(self)@, old(store)@),
    {
        self.0.next_value(store)
    }

    /// Skips `n` values from the front and hands out the one after them.
    pub fn nth(&mut self, store: &mut GlobalStorage, n: usize) -> (value: Option<Vec<u8>>)
        ensures
            final(self)@ == nth_spec(old(self)@, old(store)@, n as nat).0,
            final(store)@ == nth_spec(old(self)@, old(store)@, n as nat).1,
            opt_vec_bytes(value) == record_value(nth_spec(old(self)@, old(store)@, n as nat).2),
    {
        match self.0.advance_by(store, n) {
            Ok(()) => self.next(store),
            Err(_) => None,
        }
    }

    /// The next value from the back.
    pub fn next_back(&mut self, store: &mut GlobalStorage) -> (value: Option<Vec<u8>>)
        ensures
            opt_vec_bytes(value) == record_value(next_pair_back_record(old(self)@, old(store)@)),
            final(self)@ == next_pair_back_iter(old(self)@, old(store)@),
            final(store)@ == next_pair_back_store(old(self)@, old(store)@),
    {
        self.0.next_value_back(store)
    }

    /// Skips `n` values from the back, then hands out the next value from
    /// the front.
    pub fn nth_back(&mut self, store: &mut GlobalStorage, n: usize) -> (value: Option<Vec<u8>>)
        ensures
            final(self)@ == nth_back_spec(old(self)@, old(store)@, n as nat).0,
            final(store)@ == nth_back_spec(old(self)@, old(store)@, n as nat).1,
            opt_vec_bytes(value) == record_value(
                nth_back_spec(old(self)@, old(store)@, n as nat).2,
            ),
    {
        match self.0.advance_back_by(store, n) {
            Ok(()) => self.next(store),
            Err(_) => None,
        }
    }

    /// The same iterator, handing out records.
    pub fn into_pairs(self) -> (it: StoragePairIterator)
        ensures
            it@ == self@,
    {
        StoragePairIterator(self.0)
    }

    /// The same iterator, handing out keys only.
    pub fn into_keys(self) -> (it: StorageKeyIterator)
        ensures
            it@ == self@,
    {
        StorageKeyIterator(self.0)
    }
}

} // verus!
