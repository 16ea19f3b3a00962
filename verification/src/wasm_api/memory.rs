//! The layout of the byte regions that the host hands over.

use vstd::prelude::*;
use crate::data_types::asset::{be_value, lemma_be_value_bound};

verus! {

/// The bytes before the length suffix: all but the last four.
pub open spec fn body_of(bytes: Seq<u8>) -> Seq<u8> {
    bytes.subrange(0, bytes.len() - 4)
}

/// The number of bytes that the length suffix asks for, which is no more
/// than there are before it.
pub open spec fn suffixed_len(bytes: Seq<u8>) -> nat {
    let asked = be_value(bytes.skip(bytes.len() - 4));
    if asked <= bytes.len() - 4 {
        asked
    } else {
        (bytes.len() - 4) as nat
    }
}

/// The bytes that the length suffix counts: the last so many before the
/// suffix.
pub open spec fn suffixed_part(bytes: Seq<u8>) -> Seq<u8> {
    body_of(bytes).skip(body_of(bytes).len() - suffixed_len(bytes))
}

/// What is left before the part that the length suffix counts.
pub open spec fn before_suffixed_part(bytes: Seq<u8>) -> Seq<u8> {
    body_of(bytes).subrange(0, body_of(bytes).len() - suffixed_len(bytes))
}

/// The number that four big-endian bytes stand for.
fn read_be_u32(bytes: &[u8]) -> (value: u32)
    requires
        bytes@.len() == 4,
    ensures
        value == be_value(bytes@),
{
    let mut value: u32 = 0;
    let mut i: usize = 0;
    assert(bytes@.subrange(0, 0) =~= Seq::<u8>::empty());
    while i < 4
        invariant
            i <= 4,
            bytes@.len() == 4,
            value == be_value(bytes@.subrange(0, i as int)),
        decreases 4 - i,
    {
        proof {
            let upto = bytes@.subrange(0, i + 1);
            assert(upto.drop_last() =~= bytes@.subrange(0, i as int));
            assert(upto.last() == bytes@[i as int]);
            lemma_be_value_bound(upto);
            crate::bytes::lemma_pow256_monotonic(upto.len(), 4);
            crate::bytes::lemma_pow256_values();
        }
        value = value * 256 + bytes[i] as u32;
        i += 1;
    }
    assert(bytes@.subrange(0, 4) =~= bytes@);
    value
}

/// Takes the last part off `bytes`: the four bytes at the end are a length
/// in big-endian order, and the part is the so many bytes before them, or
/// all of them where there are fewer. The suffix and the part are removed
/// from `bytes`. There must be four bytes at least.
pub fn split_off_length_suffixed_bytes(bytes: &mut Vec<u8>) -> (part: Vec<u8>)
    requires
        old(bytes)@.len() >= 4,
    ensures
        part@ == suffixed_part(old(bytes)@),
        final(bytes)@ == before_suffixed_part(old(bytes)@),
{
    let len = bytes.len();
    let suffix = vstd::slice::slice_subrange(bytes.as_slice(), len - 4, len);
    assert(suffix@ =~= bytes@.skip(len as int - 4));
    let result_len = read_be_u32(suffix);
    bytes.truncate(len - 4);
    let body_len = bytes.len();
    let at = if result_len as usize <= body_len {
        body_len - result_len as usize
    } else {
        0
    };
    bytes.split_off(at)
}

/// The key and the value of a record that the host hands over as one
/// region: the key, its length, the value and its length, each length in
/// four big-endian bytes. `None` for a region too short to hold the two
/// lengths.
pub fn split_key_value(region: Vec<u8>) -> (record: Option<(Vec<u8>, Vec<u8>)>)
    ensures
        match record {
            Some((key, value)) => {
                &&& region@.len() >= 4
                &&& before_suffixed_part(region@).len() >= 4
                &&& value@ == suffixed_part(region@)
                &&& key@ == suffixed_part(before_suffixed_part(region@))
            },
            None => region@.len() < 4 || before_suffixed_part(region@).len() < 4,
        },
{
    let mut data_pair_bytes = region;
    if data_pair_bytes.len() < 4 {
        return None;
    }
    let data_value = split_off_length_suffixed_bytes(&mut data_pair_bytes);
    if data_pair_bytes.len() < 4 {
        return None;
    }
    let data_key = split_off_length_suffixed_bytes(&mut data_pair_bytes);
    Some((data_key, data_value))
}

} // verus!
