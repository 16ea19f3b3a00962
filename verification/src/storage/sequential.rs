//! Encodings that tell where they end: the plain types one after the other,
//! and the pairs and triples made of them.

use vstd::prelude::*;
use vstd::slice::slice_subrange;
use vstd::utf8::encode_utf8;
use crate::bytes::{
    le_bytes, le_decode, le_value, lemma_le_bytes_len, lemma_le_value_bound,
    lemma_le_value_of_bytes, lemma_pow256_values, twos_complement,
};
use crate::data_types::canonical_addr::SeiCanonicalAddr;
use crate::error::StdError;
use super::serializable::{is_string_encoding, string_encoding};
use super::{whole_front, SequentialItem, SerializableItem};

verus! {

/// The front of `data` for a type with encodings of `width` bytes: those
/// bytes, where there are so many, as the type reads them.
pub open spec fn fixed_front<T: SerializableItem>(data: Seq<u8>, width: nat) -> Option<(T::V, nat)> {
    if data.len() >= width {
        match T::decoding(data.subrange(0, width as int)) {
            Some(value) => Some((value, width)),
            None => None,
        }
    } else {
        None
    }
}

/// The value that the first `width` bytes of `data` stand for.
fn deserialize_fixed_front<T: SerializableItem>(data: &[u8], width: usize) -> (result: Result<
    (T, usize),
    StdError,
>)
    ensures
        match result {
            Ok((value, taken)) => fixed_front::<T>(data@, width as nat) == Some(
                (value@, taken as nat),
            ),
            Err(error) => fixed_front::<T>(data@, width as nat).is_none() && error
                == StdError::ParseErr,
        },
{
    if data.len() < width {
        return Err(StdError::ParseErr);
    }
    match T::deserialize_to_owned(slice_subrange(data, 0, width)) {
        Ok(value) => Ok((value, width)),
        Err(error) => Err(error),
    }
}

impl SequentialItem for u8 {
    open spec fn decoding_front(data: Seq<u8>) -> Option<(u8, nat)> {
        fixed_front::<u8>(data, 1)
    }

    proof fn lemma_decoding_is_whole_front(data: Seq<u8>) {
        if data.len() >= 1 {
            assert(data.subrange(0, 1 as int).len() == 1);
            if data.len() == 1 {
                assert(data.subrange(0, 1 as int) =~= data);
            }
        }
    }

    proof fn lemma_front_fits(data: Seq<u8>) {
    }

    proof fn lemma_front_of_encoding(value: u8, rest: Seq<u8>) {
        let encoded = <u8 as SerializableItem>::encoding(value@).unwrap();
        <u8 as SerializableItem>::lemma_round_trip(value);
        lemma_le_bytes_len(value as nat, 1);
        assert((encoded + rest).subrange(0, 1 as int) =~= encoded);
    }

    fn deserialize_front(data: &[u8]) -> (result: Result<(Self, usize), StdError>) {
        deserialize_fixed_front::<u8>(data, 1)
    }
}

impl SequentialItem for u16 {
    open spec fn decoding_front(data: Seq<u8>) -> Option<(u16, nat)> {
        fixed_front::<u16>(data, 2)
    }

    proof fn lemma_decoding_is_whole_front(data: Seq<u8>) {
        if data.len() >= 2 {
            assert(data.subrange(0, 2 as int).len() == 2);
            if data.len() == 2 {
                assert(data.subrange(0, 2 as int) =~= data);
            }
        }
    }

    proof fn lemma_front_fits(data: Seq<u8>) {
    }

    proof fn lemma_front_of_encoding(value: u16, rest: Seq<u8>) {
        let encoded = <u16 as SerializableItem>::encoding(value@).unwrap();
        <u16 as SerializableItem>::lemma_round_trip(value);
        lemma_le_bytes_len(value as nat, 2);
        assert((encoded + rest).subrange(0, 2 as int) =~= encoded);
    }

    fn deserialize_front(data: &[u8]) -> (result: Result<(Self, usize), StdError>) {
        deserialize_fixed_front::<u16>(data, 2)
    }
}

impl SequentialItem for u32 {
    open spec fn decoding_front(data: Seq<u8>) -> Option<(u32, nat)> {
        fixed_front::<u32>(data, 4)
    }

    proof fn lemma_decoding_is_whole_front(data: Seq<u8>) {
        if data.len() >= 4 {
            assert(data.subrange(0, 4 as int).len() == 4);
            if data.len() == 4 {
                assert(data.subrange(0, 4 as int) =~= data);
            }
        }
    }

    proof fn lemma_front_fits(data: Seq<u8>) {
    }

    proof fn lemma_front_of_encoding(value: u32, rest: Seq<u8>) {
        let encoded = <u32 as SerializableItem>::encoding(value@).unwrap();
        <u32 as SerializableItem>::lemma_round_trip(value);
        lemma_le_bytes_len(value as nat, 4);
        assert((encoded + rest).subrange(0, 4 as int) =~= encoded);
    }

    fn deserialize_front(data: &[u8]) -> (result: Result<(Self, usize), StdError>) {
        deserialize_fixed_front::<u32>(data, 4)
    }
}

impl SequentialItem for u64 {
    open spec fn decoding_front(data: Seq<u8>) -> Option<(u64, nat)> {
        fixed_front::<u64>(data, 8)
    }

    proof fn lemma_decoding_is_whole_front(data: Seq<u8>) {
        if data.len() >= 8 {
            assert(data.subrange(0, 8 as int).len() == 8);
            if data.len() == 8 {
                assert(data.subrange(0, 8 as int) =~= data);
            }
        }
    }

    proof fn lemma_front_fits(data: Seq<u8>) {
    }

    proof fn lemma_front_of_encoding(value: u64, rest: Seq<u8>) {
        let encoded = <u64 as SerializableItem>::encoding(value@).unwrap();
        <u64 as SerializableItem>::lemma_round_trip(value);
        lemma_le_bytes_len(value as nat, 8);
        assert((encoded + rest).subrange(0, 8 as int) =~= encoded);
    }

    fn deserialize_front(data: &[u8]) -> (result: Result<(Self, usize), StdError>) {
        deserialize_fixed_front::<u64>(data, 8)
    }
}

impl SequentialItem for u128 {
    open spec fn decoding_front(data: Seq<u8>) -> Option<(u128, nat)> {
        fixed_front::<u128>(data, 16)
    }

    proof fn lemma_decoding_is_whole_front(data: Seq<u8>) {
        if data.len() >= 16 {
            assert(data.subrange(0, 16 as int).len() == 16);
            if data.len() == 16 {
                assert(data.subrange(0, 16 as int) =~= data);
            }
        }
    }

    proof fn lemma_front_fits(data: Seq<u8>) {
    }

    proof fn lemma_front_of_encoding(value: u128, rest: Seq<u8>) {
        let encoded = <u128 as SerializableItem>::encoding(value@).unwrap();
        <u128 as SerializableItem>::lemma_round_trip(value);
        lemma_le_bytes_len(value as nat, 16);
        assert((encoded + rest).subrange(0, 16 as int) =~= encoded);
    }

    fn deserialize_front(data: &[u8]) -> (result: Result<(Self, usize), StdError>) {
        deserialize_fixed_front::<u128>(data, 16)
    }
}

impl SequentialItem for i8 {
    open spec fn decoding_front(data: Seq<u8>) -> Option<(i8, nat)> {
        fixed_front::<i8>(data, 1)
    }

    proof fn lemma_decoding_is_whole_front(data: Seq<u8>) {
        if data.len() >= 1 {
            assert(data.subrange(0, 1 as int).len() == 1);
            if data.len() == 1 {
                assert(data.subrange(0, 1 as int) =~= data);
            }
        }
    }

    proof fn lemma_front_fits(data: Seq<u8>) {
    }

    proof fn lemma_front_of_encoding(value: i8, rest: Seq<u8>) {
        let encoded = <i8 as SerializableItem>::encoding(value@).unwrap();
        <i8 as SerializableItem>::lemma_round_trip(value);
        lemma_le_bytes_len(twos_complement(value as int, 1), 1);
        assert((encoded + rest).subrange(0, 1 as int) =~= encoded);
    }

    fn deserialize_front(data: &[u8]) -> (result: Result<(Self, usize), StdError>) {
        deserialize_fixed_front::<i8>(data, 1)
    }
}

impl SequentialItem for i16 {
    open spec fn decoding_front(data: Seq<u8>) -> Option<(i16, nat)> {
        fixed_front::<i16>(data, 2)
    }

    proof fn lemma_decoding_is_whole_front(data: Seq<u8>) {
        if data.len() >= 2 {
            assert(data.subrange(0, 2 as int).len() == 2);
            if data.len() == 2 {
                assert(data.subrange(0, 2 as int) =~= data);
            }
        }
    }

    proof fn lemma_front_fits(data: Seq<u8>) {
    }

    proof fn lemma_front_of_encoding(value: i16, rest: Seq<u8>) {
        let encoded = <i16 as SerializableItem>::encoding(value@).unwrap();
        <i16 as SerializableItem>::lemma_round_trip(value);
        lemma_le_bytes_len(twos_complement(value as int, 2), 2);
        assert((encoded + rest).subrange(0, 2 as int) =~= encoded);
    }

    fn deserialize_front(data: &[u8]) -> (result: Result<(Self, usize), StdError>) {
        deserialize_fixed_front::<i16>(data, 2)
    }
}

impl SequentialItem for i32 {
    open spec fn decoding_front(data: Seq<u8>) -> Option<(i32, nat)> {
        fixed_front::<i32>(data, 4)
    }

    proof fn lemma_decoding_is_whole_front(data: Seq<u8>) {
        if data.len() >= 4 {
            assert(data.subrange(0, 4 as int).len() == 4);
            if data.len() == 4 {
                assert(data.subrange(0, 4 as int) =~= data);
            }
        }
    }

    proof fn lemma_front_fits(data: Seq<u8>) {
    }

    proof fn lemma_front_of_encoding(value: i32, rest: Seq<u8>) {
        let encoded = <i32 as SerializableItem>::encoding(value@).unwrap();
        <i32 as SerializableItem>::lemma_round_trip(value);
        lemma_le_bytes_len(twos_complement(value as int, 4), 4);
        assert((encoded + rest).subrange(0, 4 as int) =~= encoded);
    }

    fn deserialize_front(data: &[u8]) -> (result: Result<(Self, usize), StdError>) {
        deserialize_fixed_front::<i32>(data, 4)
    }
}

impl SequentialItem for i64 {
    open spec fn decoding_front(data: Seq<u8>) -> Option<(i64, nat)> {
        fixed_front::<i64>(data, 8)
    }

    proof fn lemma_decoding_is_whole_front(data: Seq<u8>) {
        if data.len() >= 8 {
            assert(data.subrange(0, 8 as int).len() == 8);
            if data.len() == 8 {
                assert(data.subrange(0, 8 as int) =~= data);
            }
        }
    }

    proof fn lemma_front_fits(data: Seq<u8>) {
    }

    proof fn lemma_front_of_encoding(value: i64, rest: Seq<u8>) {
        let encoded = <i64 as SerializableItem>::encoding(value@).unwrap();
        <i64 as SerializableItem>::lemma_round_trip(value);
        lemma_le_bytes_len(twos_complement(value as int, 8), 8);
        assert((encoded + rest).subrange(0, 8 as int) =~= encoded);
    }

    fn deserialize_front(data: &[u8]) -> (result: Result<(Self, usize), StdError>) {
        deserialize_fixed_front::<i64>(data, 8)
    }
}

impl SequentialItem for i128 {
    open spec fn decoding_front(data: Seq<u8>) -> Option<(i128, nat)> {
        fixed_front::<i128>(data, 16)
    }

    proof fn lemma_decoding_is_whole_front(data: Seq<u8>) {
        if data.len() >= 16 {
            assert(data.subrange(0, 16 as int).len() == 16);
            if data.len() == 16 {
                assert(data.subrange(0, 16 as int) =~= data);
            }
        }
    }

    proof fn lemma_front_fits(data: Seq<u8>) {
    }

    proof fn lemma_front_of_encoding(value: i128, rest: Seq<u8>) {
        let encoded = <i128 as SerializableItem>::encoding(value@).unwrap();
        <i128 as SerializableItem>::lemma_round_trip(value);
        lemma_le_bytes_len(twos_complement(value as int, 16), 16);
        assert((encoded + rest).subrange(0, 16 as int) =~= encoded);
    }

    fn deserialize_front(data: &[u8]) -> (result: Result<(Self, usize), StdError>) {
        deserialize_fixed_front::<i128>(data, 16)
    }
}

impl SequentialItem for bool {
    open spec fn decoding_front(data: Seq<u8>) -> Option<(bool, nat)> {
        fixed_front::<bool>(data, 1)
    }

    proof fn lemma_decoding_is_whole_front(data: Seq<u8>) {
        if data.len() >= 1 {
            assert(data.subrange(0, 1 as int).len() == 1);
            if data.len() == 1 {
                assert(data.subrange(0, 1 as int) =~= data);
            }
        }
    }

    proof fn lemma_front_fits(data: Seq<u8>) {
    }

    proof fn lemma_front_of_encoding(value: bool, rest: Seq<u8>) {
        let encoded = <bool as SerializableItem>::encoding(value@).unwrap();
        <bool as SerializableItem>::lemma_round_trip(value);

        assert((encoded + rest).subrange(0, 1 as int) =~= encoded);
    }

    fn deserialize_front(data: &[u8]) -> (result: Result<(Self, usize), StdError>) {
        deserialize_fixed_front::<bool>(data, 1)
    }
}

impl SequentialItem for SeiCanonicalAddr {
    open spec fn decoding_front(data: Seq<u8>) -> Option<(Seq<u8>, nat)> {
        fixed_front::<SeiCanonicalAddr>(data, 32)
    }

    proof fn lemma_decoding_is_whole_front(data: Seq<u8>) {
        if data.len() >= 32 {
            assert(data.subrange(0, 32 as int).len() == 32);
            if data.len() == 32 {
                assert(data.subrange(0, 32 as int) =~= data);
            }
        }
    }

    proof fn lemma_front_fits(data: Seq<u8>) {
    }

    proof fn lemma_front_of_encoding(value: SeiCanonicalAddr, rest: Seq<u8>) {
        let encoded = <SeiCanonicalAddr as SerializableItem>::encoding(value@).unwrap();
        <SeiCanonicalAddr as SerializableItem>::lemma_round_trip(value);
        value.lemma_len();
        assert((encoded + rest).subrange(0, 32 as int) =~= encoded);
    }

    fn deserialize_front(data: &[u8]) -> (result: Result<(Self, usize), StdError>) {
        deserialize_fixed_front::<SeiCanonicalAddr>(data, 32)
    }
}

impl SequentialItem for () {
    open spec fn decoding_front(data: Seq<u8>) -> Option<((), nat)> {
        Some(((), 0))
    }

    proof fn lemma_decoding_is_whole_front(data: Seq<u8>) {
    }

    proof fn lemma_front_fits(data: Seq<u8>) {
    }

    proof fn lemma_front_of_encoding(value: (), rest: Seq<u8>) {
    }

    fn deserialize_front(data: &[u8]) -> (result: Result<(Self, usize), StdError>) {
        Ok(((), 0))
    }
}

impl<const N: usize> SequentialItem for [u8; N] {
    open spec fn decoding_front(data: Seq<u8>) -> Option<(Seq<u8>, nat)> {
        fixed_front::<[u8; N]>(data, N as nat)
    }

    proof fn lemma_decoding_is_whole_front(data: Seq<u8>) {
        if data.len() >= N {
            assert(data.subrange(0, N as int).len() == N);
            if data.len() == N {
                assert(data.subrange(0, N as int) =~= data);
            }
        }
    }

    proof fn lemma_front_fits(data: Seq<u8>) {
    }

    proof fn lemma_front_of_encoding(value: [u8; N], rest: Seq<u8>) {
        let encoded = <[u8; N] as SerializableItem>::encoding(value@).unwrap();
        assert((encoded + rest).subrange(0, N as int) =~= encoded);
    }

    fn deserialize_front(data: &[u8]) -> (result: Result<(Self, usize), StdError>) {
        deserialize_fixed_front::<[u8; N]>(data, N)
    }
}

/// The number of bytes that the string at the front of `data` takes: the
/// four bytes of its length, and as many bytes as the length says.
pub open spec fn string_front_len(data: Seq<u8>) -> nat {
    4 + le_value(data.subrange(0, 4))
}

impl SequentialItem for String {
    open spec fn decoding_front(data: Seq<u8>) -> Option<(Seq<char>, nat)> {
        if data.len() >= 4 && data.len() >= string_front_len(data) {
            match <String as SerializableItem>::decoding(
                data.subrange(0, string_front_len(data) as int),
            ) {
                Some(value) => Some((value, string_front_len(data))),
                None => None,
            }
        } else {
            None
        }
    }

    proof fn lemma_decoding_is_whole_front(data: Seq<u8>) {
        if data.len() >= 4 {
            let taken = string_front_len(data);
            if data.len() >= taken {
                let front = data.subrange(0, taken as int);
                assert(front.subrange(0, 4) =~= data.subrange(0, 4));
                if taken == data.len() {
                    assert(front =~= data);
                } else {
                    assert(!is_string_encoding(data));
                }
            } else {
                assert(!is_string_encoding(data));
            }
        }
    }

    proof fn lemma_front_fits(data: Seq<u8>) {
    }

    proof fn lemma_front_of_encoding(value: String, rest: Seq<u8>) {
        let text = encode_utf8(value@);
        let encoded = string_encoding(value@).unwrap();
        let data = encoded + rest;
        lemma_pow256_values();
        lemma_le_bytes_len(text.len(), 4);
        lemma_le_value_of_bytes(text.len(), 4);
        assert(data.subrange(0, 4) =~= le_bytes(text.len(), 4));
        assert(data.subrange(0, string_front_len(data) as int) =~= encoded);
        <String as SerializableItem>::lemma_round_trip(value);
    }

    fn deserialize_front(data: &[u8]) -> (result: Result<(Self, usize), StdError>) {
        if data.len() < 4 {
            return Err(StdError::ParseErr);
        }
        let length_bytes = slice_subrange(data, 0, 4);
        proof {
            lemma_le_value_bound(length_bytes@);
            lemma_pow256_values();
        }
        let length = le_decode(length_bytes);
        if length > (data.len() - 4) as u128 {
            return Err(StdError::ParseErr);
        }
        let taken = 4 + length as usize;
        match String::deserialize_to_owned(slice_subrange(data, 0, taken)) {
            Ok(value) => Ok((value, taken)),
            Err(error) => Err(error),
        }
    }
}

/// The encoding of a pair: that of its first part, then that of its second.
pub open spec fn pair_encoding<A: SerializableItem, B: SerializableItem>(
    value: (A::V, B::V),
) -> Option<Seq<u8>> {
    match (A::encoding(value.0), B::encoding(value.1)) {
        (Some(first), Some(second)) => Some(first + second),
        _ => None,
    }
}

/// The pair at the front of `data`: the first part at the front, and the
/// second part at the front of what follows it.
pub open spec fn pair_front<A: SequentialItem, B: SequentialItem>(data: Seq<u8>) -> Option<
    ((A::V, B::V), nat),
> {
    match A::decoding_front(data) {
        Some((first, taken)) => match B::decoding_front(data.skip(taken as int)) {
            Some((second, more)) => Some(((first, second), taken + more)),
            None => None,
        },
        None => None,
    }
}

impl<A: SequentialItem, B: SequentialItem> SerializableItem for (A, B) {
    open spec fn encoding(value: (A::V, B::V)) -> Option<Seq<u8>> {
        pair_encoding::<A, B>(value)
    }

    open spec fn decoding(data: Seq<u8>) -> Option<(A::V, B::V)> {
        whole_front(pair_front::<A, B>(data), data.len())
    }

    proof fn lemma_round_trip(value: (A, B)) {
        let encoded = pair_encoding::<A, B>(value@).unwrap();
        <(A, B) as SequentialItem>::lemma_front_of_encoding(value, Seq::empty());
        assert(encoded + Seq::<u8>::empty() =~= encoded);
    }

    fn serialize_to_owned(&self) -> (result: Result<Vec<u8>, StdError>) {
        let mut bytes = match self.0.serialize_to_owned() {
            Ok(bytes) => bytes,
            Err(error) => {
                return Err(error);
            },
        };
        let mut second = match self.1.serialize_to_owned() {
            Ok(bytes) => bytes,
            Err(error) => {
                return Err(error);
            },
        };
        bytes.append(&mut second);
        Ok(bytes)
    }

    fn serialize_as_ref(&self) -> (result: Option<&[u8]>) {
        None
    }

    fn deserialize_to_owned(data: &[u8]) -> (result: Result<Self, StdError>) {
        match <(A, B) as SequentialItem>::deserialize_front(data) {
            Ok((value, taken)) => {
                if taken == data.len() {
                    Ok(value)
                } else {
                    Err(StdError::ParseErr)
                }
            },
            Err(error) => Err(error),
        }
    }

    fn deserialize_as_ref(data: &[u8]) -> (result: Option<&Self>) {
        None
    }
}

impl<A: SequentialItem, B: SequentialItem> SequentialItem for (A, B) {
    open spec fn decoding_front(data: Seq<u8>) -> Option<((A::V, B::V), nat)> {
        pair_front::<A, B>(data)
    }

    proof fn lemma_decoding_is_whole_front(data: Seq<u8>) {
    }

    proof fn lemma_front_fits(data: Seq<u8>) {
        A::lemma_front_fits(data);
        match A::decoding_front(data) {
            Some((first, taken)) => {
                B::lemma_front_fits(data.skip(taken as int));
            },
            None => {},
        }
    }

    proof fn lemma_front_of_encoding(value: (A, B), rest: Seq<u8>) {
        let first = A::encoding(value.0@).unwrap();
        let second = B::encoding(value.1@).unwrap();
        let data = first + second + rest;
        assert(data =~= first + (second + rest));
        A::lemma_front_of_encoding(value.0, second + rest);
        assert(data.skip(first.len() as int) =~= second + rest);
        B::lemma_front_of_encoding(value.1, rest);
    }

    fn deserialize_front(data: &[u8]) -> (result: Result<(Self, usize), StdError>) {
        let (first, taken) = match A::deserialize_front(data) {
            Ok(front) => front,
            Err(error) => {
                return Err(error);
            },
        };
        proof {
            A::lemma_front_fits(data@);
        }
        let rest = slice_subrange(data, taken, data.len());
        assert(rest@ =~= data@.skip(taken as int));
        let (second, more) = match B::deserialize_front(rest) {
            Ok(front) => front,
            Err(error) => {
                return Err(error);
            },
        };
        proof {
            B::lemma_front_fits(rest@);
        }
        Ok(((first, second), taken + more))
    }
}

/// The encoding of a triple: those of its parts, one after the other.
pub open spec fn triple_encoding<A: SerializableItem, B: SerializableItem, C: SerializableItem>(
    value: (A::V, B::V, C::V),
) -> Option<Seq<u8>> {
    match (A::encoding(value.0), B::encoding(value.1), C::encoding(value.2)) {
        (Some(first), Some(second), Some(third)) => Some(first + second + third),
        _ => None,
    }
}

/// The triple at the front of `data`: its parts, each at the front of what
/// follows the one before.
pub open spec fn triple_front<A: SequentialItem, B: SequentialItem, C: SequentialItem>(
    data: Seq<u8>,
) -> Option<((A::V, B::V, C::V), nat)> {
    match pair_front::<A, B>(data) {
        Some(((first, second), taken)) => match C::decoding_front(data.skip(taken as int)) {
            Some((third, more)) => Some(((first, second, third), taken + more)),
            None => None,
        },
        None => None,
    }
}

impl<A: SequentialItem, B: SequentialItem, C: SequentialItem> SerializableItem for (A, B, C) {
    open spec fn encoding(value: (A::V, B::V, C::V)) -> Option<Seq<u8>> {
        triple_encoding::<A, B, C>(value)
    }

    open spec fn decoding(data: Seq<u8>) -> Option<(A::V, B::V, C::V)> {
        whole_front(triple_front::<A, B, C>(data), data.len())
    }

    proof fn lemma_round_trip(value: (A, B, C)) {
        let encoded = triple_encoding::<A, B, C>(value@).unwrap();
        <(A, B, C) as SequentialItem>::lemma_front_of_encoding(value, Seq::empty());
        assert(encoded + Seq::<u8>::empty() =~= encoded);
    }

    fn serialize_to_owned(&self) -> (result: Result<Vec<u8>, StdError>) {
        let mut bytes = match self.0.serialize_to_owned() {
            Ok(bytes) => bytes,
            Err(error) => {
                return Err(error);
            },
        };
        let mut second = match self.1.serialize_to_owned() {
            Ok(bytes) => bytes,
            Err(error) => {
                return Err(error);
            },
        };
        let mut third = match self.2.serialize_to_owned() {
            Ok(bytes) => bytes,
            Err(error) => {
                return Err(error);
            },
        };
        bytes.append(&mut second);
        bytes.append(&mut third);
        Ok(bytes)
    }

    fn serialize_as_ref(&self) -> (result: Option<&[u8]>) {
        None
    }

    fn deserialize_to_owned(data: &[u8]) -> (result: Result<Self, StdError>) {
        match <(A, B, C) as SequentialItem>::deserialize_front(data) {
            Ok((value, taken)) => {
                if taken == data.len() {
                    Ok(value)
                } else {
                    Err(StdError::ParseErr)
                }
            },
            Err(error) => Err(error),
        }
    }

    fn deserialize_as_ref(data: &[u8]) -> (result: Option<&Self>) {
        None
    }
}

impl<A: SequentialItem, B: SequentialItem, C: SequentialItem> SequentialItem for (A, B, C) {
    open spec fn decoding_front(data: Seq<u8>) -> Option<((A::V, B::V, C::V), nat)> {
        triple_front::<A, B, C>(data)
    }

    proof fn lemma_decoding_is_whole_front(data: Seq<u8>) {
    }

    proof fn lemma_front_fits(data: Seq<u8>) {
        <(A, B) as SequentialItem>::lemma_front_fits(data);
        match pair_front::<A, B>(data) {
            Some((pair, taken)) => {
                C::lemma_front_fits(data.skip(taken as int));
            },
            None => {},
        }
    }

    proof fn lemma_front_of_encoding(value: (A, B, C), rest: Seq<u8>) {
        let first = A::encoding(value.0@).unwrap();
        let second = B::encoding(value.1@).unwrap();
        let third = C::encoding(value.2@).unwrap();
        let data = first + second + third + rest;
        assert(data =~= (first + second) + (third + rest));
        <(A, B) as SequentialItem>::lemma_front_of_encoding((value.0, value.1), third + rest);
        assert(data.skip((first + second).len() as int) =~= third + rest);
        C::lemma_front_of_encoding(value.2, rest);
    }

    fn deserialize_front(data: &[u8]) -> (result: Result<(Self, usize), StdError>) {
        let ((first, second), taken) = match <(A, B) as SequentialItem>::deserialize_front(data) {
            Ok(front) => front,
            Err(error) => {
                return Err(error);
            },
        };
        proof {
            <(A, B) as SequentialItem>::lemma_front_fits(data@);
        }
        let rest = slice_subrange(data, taken, data.len());
        assert(rest@ =~= data@.skip(taken as int));
        let (third, more) = match C::deserialize_front(rest) {
            Ok(front) => front,
            Err(error) => {
                return Err(error);
            },
        };
        proof {
            C::lemma_front_fits(rest@);
        }
        Ok(((first, second, third), taken + more))
    }
}

/// The encoding of a tuple of four: those of its parts, one after the
/// other.
pub open spec fn quad_encoding<
    A: SerializableItem,
    B: SerializableItem,
    C: SerializableItem,
    D: SerializableItem,
>(value: (A::V, B::V, C::V, D::V)) -> Option<Seq<u8>> {
    match (
        A::encoding(value.0),
        B::encoding(value.1),
        C::encoding(value.2),
        D::encoding(value.3),
    ) {
        (Some(first), Some(second), Some(third), Some(fourth)) => Some(
            first + second + third + fourth,
        ),
        _ => None,
    }
}

/// The tuple of four at the front of `data`: its parts, each at the front
/// of what follows the one before.
pub open spec fn quad_front<
    A: SequentialItem,
    B: SequentialItem,
    C: SequentialItem,
    D: SequentialItem,
>(data: Seq<u8>) -> Option<((A::V, B::V, C::V, D::V), nat)> {
    match triple_front::<A, B, C>(data) {
        Some(((first, second, third), taken)) => match D::decoding_front(
            data.skip(taken as int),
        ) {
            Some((fourth, more)) => Some(((first, second, third, fourth), taken + more)),
            None => None,
        },
        None => None,
    }
}

impl<
    A: SequentialItem,
    B: SequentialItem,
    C: SequentialItem,
    D: SequentialItem,
> SerializableItem for (A, B, C, D) {
    open spec fn encoding(value: (A::V, B::V, C::V, D::V)) -> Option<Seq<u8>> {
        quad_encoding::<A, B, C, D>(value)
    }

    open spec fn decoding(data: Seq<u8>) -> Option<(A::V, B::V, C::V, D::V)> {
        whole_front(quad_front::<A, B, C, D>(data), data.len())
    }

    proof fn lemma_round_trip(value: (A, B, C, D)) {
        let encoded = quad_encoding::<A, B, C, D>(value@).unwrap();
        <(A, B, C, D) as SequentialItem>::lemma_front_of_encoding(value, Seq::empty());
        assert(encoded + Seq::<u8>::empty() =~= encoded);
    }

    fn serialize_to_owned(&self) -> (result: Result<Vec<u8>, StdError>) {
        let mut bytes = match self.0.serialize_to_owned() {
            Ok(bytes) => bytes,
            Err(error) => {
                return Err(error);
            },
        };
        let mut second = match self.1.serialize_to_owned() {
            Ok(bytes) => bytes,
            Err(error) => {
                return Err(error);
            },
        };
        let mut third = match self.2.serialize_to_owned() {
            Ok(bytes) => bytes,
            Err(error) => {
                return Err(error);
            },
        };
        let mut fourth = match self.3.serialize_to_owned() {
            Ok(bytes) => bytes,
            Err(error) => {
                return Err(error);
            },
        };
        bytes.append(&mut second);
        bytes.append(&mut third);
        bytes.append(&mut fourth);
        Ok(bytes)
    }

    fn serialize_as_ref(&self) -> (result: Option<&[u8]>) {
        None
    }

    fn deserialize_to_owned(data: &[u8]) -> (result: Result<Self, StdError>) {
        match <(A, B, C, D) as SequentialItem>::deserialize_front(data) {
            Ok((value, taken)) => {
                if taken == data.len() {
                    Ok(value)
                } else {
                    Err(StdError::ParseErr)
                }
            },
            Err(error) => Err(error),
        }
    }

    fn deserialize_as_ref(data: &[u8]) -> (result: Option<&Self>) {
        None
    }
}

impl<
    A: SequentialItem,
    B: SequentialItem,
    C: SequentialItem,
    D: SequentialItem,
> SequentialItem for (A, B, C, D) {
    open spec fn decoding_front(data: Seq<u8>) -> Option<((A::V, B::V, C::V, D::V), nat)> {
        quad_front::<A, B, C, D>(data)
    }

    proof fn lemma_decoding_is_whole_front(data: Seq<u8>) {
    }

    proof fn lemma_front_fits(data: Seq<u8>) {
        <(A, B, C) as SequentialItem>::lemma_front_fits(data);
        match triple_front::<A, B, C>(data) {
            Some((triple, taken)) => {
                D::lemma_front_fits(data.skip(taken as int));
            },
            None => {},
        }
    }

    proof fn lemma_front_of_encoding(value: (A, B, C, D), rest: Seq<u8>) {
        let first = A::encoding(value.0@).unwrap();
        let second = B::encoding(value.1@).unwrap();
        let third = C::encoding(value.2@).unwrap();
        let fourth = D::encoding(value.3@).unwrap();
        let data = first + second + third + fourth + rest;
        assert(data =~= (first + second + third) + (fourth + rest));
        <(A, B, C) as SequentialItem>::lemma_front_of_encoding(
            (value.0, value.1, value.2),
            fourth + rest,
        );
        assert(data.skip((first + second + third).len() as int) =~= fourth + rest);
        D::lemma_front_of_encoding(value.3, rest);
    }

    fn deserialize_front(data: &[u8]) -> (result: Result<(Self, usize), StdError>) {
        let ((first, second, third), taken) = match <(A, B, C) as SequentialItem>::deserialize_front(
            data,
        ) {
            Ok(front) => front,
            Err(error) => {
                return Err(error);
            },
        };
        proof {
            <(A, B, C) as SequentialItem>::lemma_front_fits(data@);
        }
        let rest = slice_subrange(data, taken, data.len());
        assert(rest@ =~= data@.skip(taken as int));
        let (fourth, more) = match D::deserialize_front(rest) {
            Ok(front) => front,
            Err(error) => {
                return Err(error);
            },
        };
        proof {
            D::lemma_front_fits(rest@);
        }
        Ok(((first, second, third, fourth), taken + more))
    }
}

/// The encoding of a byte vector: the number of its bytes, in four
/// little-endian bytes, and then the bytes. `None` for more bytes than a
/// `u32` counts.
pub open spec fn byte_vec_encoding(value: Seq<u8>) -> Option<Seq<u8>> {
    if value.len() <= u32::MAX {
        Some(le_bytes(value.len(), 4) + value)
    } else {
        None
    }
}

impl SerializableItem for Vec<u8> {
    open spec fn encoding(value: Seq<u8>) -> Option<Seq<u8>> {
        byte_vec_encoding(value)
    }

    open spec fn decoding(data: Seq<u8>) -> Option<Seq<u8>> {
        if data.len() >= 4 && le_value(data.subrange(0, 4)) == data.len() - 4 {
            Some(data.skip(4))
        } else {
            None
        }
    }

    proof fn lemma_round_trip(value: Vec<u8>) {
        let encoded = byte_vec_encoding(value@).unwrap();
        lemma_pow256_values();
        lemma_le_bytes_len(value@.len(), 4);
        lemma_le_value_of_bytes(value@.len(), 4);
        assert(encoded.subrange(0, 4) =~= le_bytes(value@.len(), 4));
        assert(encoded.skip(4) =~= value@);
    }

    fn serialize_to_owned(&self) -> (result: Result<Vec<u8>, StdError>) {
        if self.len() > u32::MAX as usize {
            return Err(StdError::SerializeErr);
        }
        let mut bytes = crate::bytes::le_encode(self.len() as u128, 4);
        bytes.extend_from_slice(self.as_slice());
        assert(bytes@ =~= le_bytes(self@.len(), 4) + self@);
        Ok(bytes)
    }

    fn serialize_as_ref(&self) -> (result: Option<&[u8]>) {
        None
    }

    fn deserialize_to_owned(data: &[u8]) -> (result: Result<Self, StdError>) {
        if data.len() < 4 {
            return Err(StdError::ParseErr);
        }
        let length_bytes = slice_subrange(data, 0, 4);
        proof {
            lemma_le_value_bound(length_bytes@);
            lemma_pow256_values();
        }
        let length = le_decode(length_bytes);
        if length != (data.len() - 4) as u128 {
            return Err(StdError::ParseErr);
        }
        let mut value: Vec<u8> = Vec::new();
        value.extend_from_slice(slice_subrange(data, 4, data.len()));
        assert(value@ =~= data@.skip(4));
        Ok(value)
    }

    fn deserialize_as_ref(data: &[u8]) -> (result: Option<&Self>) {
        None
    }
}

} // verus!
