//! Types whose layout in memory is their wire format, and what follows for
//! a value that is read from the store and written back.

use vstd::prelude::*;
use crate::bytes::{
    from_twos_complement, le_bytes, le_value, lemma_le_bytes_of_value, lemma_le_value_bound,
    lemma_pow256_values, twos_complement,
};
use crate::data_types::canonical_addr::SeiCanonicalAddr;
use super::base::{write_spec, StorageView};
use super::queue::QueueEnds;
use super::{OZeroCopy, SerializableItem};

verus! {

/// A type whose layout in memory is its wire format: a plain number, an
/// array of bytes, or an aggregate of such without padding. Its encodings
/// all have one length, and bytes that parse are the encoding of the value
/// that they parse to. Whether such a value is read in place or parsed into
/// a value of its own can therefore not be told from the bytes that are
/// written back.
pub trait FixedLayoutItem: SerializableItem {
    /// Bytes that parse are the encoding of the value that they parse to.
    proof fn lemma_decoding_inverts(data: Seq<u8>)
        requires
            Self::decoding(data).is_some(),
        ensures
            Self::encoding(Self::decoding(data).unwrap()) == Some(data),
    ;
}

impl FixedLayoutItem for u8 {
    proof fn lemma_decoding_inverts(data: Seq<u8>) {
        lemma_pow256_values();
        lemma_le_value_bound(data);
        lemma_le_bytes_of_value(data);
    }
}

impl FixedLayoutItem for u16 {
    proof fn lemma_decoding_inverts(data: Seq<u8>) {
        lemma_pow256_values();
        lemma_le_value_bound(data);
        lemma_le_bytes_of_value(data);
    }
}

impl FixedLayoutItem for u32 {
    proof fn lemma_decoding_inverts(data: Seq<u8>) {
        lemma_pow256_values();
        lemma_le_value_bound(data);
        lemma_le_bytes_of_value(data);
    }
}

impl FixedLayoutItem for u64 {
    proof fn lemma_decoding_inverts(data: Seq<u8>) {
        lemma_pow256_values();
        lemma_le_value_bound(data);
        lemma_le_bytes_of_value(data);
    }
}

impl FixedLayoutItem for u128 {
    proof fn lemma_decoding_inverts(data: Seq<u8>) {
        lemma_pow256_values();
        lemma_le_value_bound(data);
        lemma_le_bytes_of_value(data);
    }
}

impl FixedLayoutItem for i8 {
    proof fn lemma_decoding_inverts(data: Seq<u8>) {
        lemma_pow256_values();
        lemma_le_value_bound(data);
        lemma_le_bytes_of_value(data);
        let number = from_twos_complement(le_value(data), 1);
        assert(twos_complement(number, 1) == le_value(data));
    }
}

impl FixedLayoutItem for i16 {
    proof fn lemma_decoding_inverts(data: Seq<u8>) {
        lemma_pow256_values();
        lemma_le_value_bound(data);
        lemma_le_bytes_of_value(data);
        let number = from_twos_complement(le_value(data), 2);
        assert(twos_complement(number, 2) == le_value(data));
    }
}

impl FixedLayoutItem for i32 {
    proof fn lemma_decoding_inverts(data: Seq<u8>) {
        lemma_pow256_values();
        lemma_le_value_bound(data);
        lemma_le_bytes_of_value(data);
        let number = from_twos_complement(le_value(data), 4);
        assert(twos_complement(number, 4) == le_value(data));
    }
}

impl FixedLayoutItem for i64 {
    proof fn lemma_decoding_inverts(data: Seq<u8>) {
        lemma_pow256_values();
        lemma_le_value_bound(data);
        lemma_le_bytes_of_value(data);
        let number = from_twos_complement(le_value(data), 8);
        assert(twos_complement(number, 8) == le_value(data));
    }
}

impl FixedLayoutItem for i128 {
    proof fn lemma_decoding_inverts(data: Seq<u8>) {
        lemma_pow256_values();
        lemma_le_value_bound(data);
        lemma_le_bytes_of_value(data);
        let number = from_twos_complement(le_value(data), 16);
        assert(twos_complement(number, 16) == le_value(data));
    }
}

impl<const N: usize> FixedLayoutItem for [u8; N] {
    proof fn lemma_decoding_inverts(data: Seq<u8>) {
    }
}

impl FixedLayoutItem for SeiCanonicalAddr {
    proof fn lemma_decoding_inverts(data: Seq<u8>) {
    }
}

impl FixedLayoutItem for QueueEnds {
    proof fn lemma_decoding_inverts(data: Seq<u8>) {
        let front = data.subrange(0, 4);
        let back = data.subrange(4, 8);
        lemma_pow256_values();
        lemma_le_value_bound(front);
        lemma_le_value_bound(back);
        lemma_le_bytes_of_value(front);
        lemma_le_bytes_of_value(back);
        assert(front + back =~= data);
    }
}

/// **A cell is transparent.** A cell that holds what the bytes of a record
/// parse to has those very bytes as its encoding: made from a record and
/// not changed, it turns back into the record, as a value parsed into a
/// buffer of its own does.
pub proof fn lemma_unchanged_cell_gives_back_its_bytes<T: FixedLayoutItem>(
    bytes: Seq<u8>,
    cell: OZeroCopy<T>,
)
    requires
        T::decoding(bytes) == Some(cell@),
    ensures
        T::encoding(cell@) == Some(bytes),
{
    T::lemma_decoding_inverts(bytes);
}

/// **Writing back what was read changes nothing.** Where the record under
/// `key` parses to `value`, the encoding of `value` is that record, and
/// writing `value` back under `key` leaves the store as it was.
pub proof fn lemma_write_back_leaves_store<T: FixedLayoutItem>(
    s: StorageView,
    key: Seq<u8>,
    value: T,
)
    requires
        s.records.contains_key(key),
        T::decoding(s.records[key]) == Some(value@),
    ensures
        T::encoding(value@) == Some(s.records[key]),
        write_spec(s, key, T::encoding(value@).unwrap()) == s,
{
    T::lemma_decoding_inverts(s.records[key]);
    assert(s.records.insert(key, s.records[key]) =~= s.records);
}

} // verus!
