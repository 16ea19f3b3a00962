//! Tuples of five to twelve parts: the encoding of a tuple is that of its
//! parts, one after the other, and a tuple is read from the front of bytes
//! part by part.

use vstd::prelude::*;
use vstd::slice::slice_subrange;
use crate::error::StdError;
use super::sequential::{quad_encoding, quad_front};
use super::{whole_front, SequentialItem, SerializableItem};

verus! {

/// The encoding of a tuple of five: those of its parts, one after the
/// other.
pub open spec fn tuple5_encoding<
    A0: SerializableItem,
    A1: SerializableItem,
    A2: SerializableItem,
    A3: SerializableItem,
    A4: SerializableItem,
>(value: (A0::V, A1::V, A2::V, A3::V, A4::V)) -> Option<Seq<u8>> {
    match (quad_encoding::<A0, A1, A2, A3>((value.0, value.1, value.2, value.3)), A4::encoding(value.4)) {
        (Some(front), Some(last)) => Some(front + last),
        _ => None,
    }
}

/// The tuple of five at the front of `data`: its parts, each at the front
/// of what follows the one before.
pub open spec fn tuple5_front<
    A0: SequentialItem,
    A1: SequentialItem,
    A2: SequentialItem,
    A3: SequentialItem,
    A4: SequentialItem,
>(data: Seq<u8>) -> Option<((A0::V, A1::V, A2::V, A3::V, A4::V), nat)> {
    match quad_front::<A0, A1, A2, A3>(data) {
        Some((prefix, taken)) => match A4::decoding_front(data.skip(taken as int)) {
            Some((last, more)) => Some(((prefix.0, prefix.1, prefix.2, prefix.3, last), taken + more)),
            None => None,
        },
        None => None,
    }
}

impl<
    A0: SequentialItem,
    A1: SequentialItem,
    A2: SequentialItem,
    A3: SequentialItem,
    A4: SequentialItem,
> SerializableItem for (A0, A1, A2, A3, A4) {
    open spec fn encoding(value: (A0::V, A1::V, A2::V, A3::V, A4::V)) -> Option<Seq<u8>> {
        tuple5_encoding::<A0, A1, A2, A3, A4>(value)
    }

    open spec fn decoding(data: Seq<u8>) -> Option<(A0::V, A1::V, A2::V, A3::V, A4::V)> {
        whole_front(tuple5_front::<A0, A1, A2, A3, A4>(data), data.len())
    }

    proof fn lemma_round_trip(value: (A0, A1, A2, A3, A4)) {
        let encoded = tuple5_encoding::<A0, A1, A2, A3, A4>(value@).unwrap();
        <(A0, A1, A2, A3, A4) as SequentialItem>::lemma_front_of_encoding(value, Seq::empty());
        assert(encoded + Seq::<u8>::empty() =~= encoded);
    }

    fn serialize_to_owned(&self) -> (result: Result<Vec<u8>, StdError>) {
        let mut bytes = match self.0.serialize_to_owned() {
            Ok(bytes) => bytes,
            Err(error) => {
                return Err(error);
            },
        };
        let mut next = match self.1.serialize_to_owned() {
            Ok(bytes) => bytes,
            Err(error) => {
                return Err(error);
            },
        };
        bytes.append(&mut next);
        let mut next = match self.2.serialize_to_owned() {
            Ok(bytes) => bytes,
            Err(error) => {
                return Err(error);
            },
        };
        bytes.append(&mut next);
        let mut next = match self.3.serialize_to_owned() {
            Ok(bytes) => bytes,
            Err(error) => {
                return Err(error);
            },
        };
        bytes.append(&mut next);
        let mut next = match self.4.serialize_to_owned() {
            Ok(bytes) => bytes,
            Err(error) => {
                return Err(error);
            },
        };
        bytes.append(&mut next);
        Ok(bytes)
    }

    fn serialize_as_ref(&self) -> (result: Option<&[u8]>) {
        None
    }

    fn deserialize_to_owned(data: &[u8]) -> (result: Result<Self, StdError>) {
        match <(A0, A1, A2, A3, A4) as SequentialItem>::deserialize_front(data) {
            Ok((value, taken)) => {
                if taken == data.len() {
                    Ok(value)
                } else {
                    Err(StdError::ParseErr)
                }
            },
            Err(error) => Err(error),
        }
    }

    fn deserialize_as_ref(data: &[u8]) -> (result: Option<&Self>) {
        None
    }
}

impl<
    A0: SequentialItem,
    A1: SequentialItem,
    A2: SequentialItem,
    A3: SequentialItem,
    A4: SequentialItem,
> SequentialItem for (A0, A1, A2, A3, A4) {
    open spec fn decoding_front(data: Seq<u8>) -> Option<((A0::V, A1::V, A2::V, A3::V, A4::V), nat)> {
        tuple5_front::<A0, A1, A2, A3, A4>(data)
    }

    proof fn lemma_decoding_is_whole_front(data: Seq<u8>) {
    }

    proof fn lemma_front_fits(data: Seq<u8>) {
        <(A0, A1, A2, A3) as SequentialItem>::lemma_front_fits(data);
        match quad_front::<A0, A1, A2, A3>(data) {
            Some((prefix, taken)) => {
                A4::lemma_front_fits(data.skip(taken as int));
            },
            None => {},
        }
    }

    proof fn lemma_front_of_encoding(value: (A0, A1, A2, A3, A4), rest: Seq<u8>) {
        let front = quad_encoding::<A0, A1, A2, A3>((value@.0, value@.1, value@.2, value@.3)).unwrap();
        let last = A4::encoding(value.4@).unwrap();
        let data = front + last + rest;
        assert(data =~= front + (last + rest));
        <(A0, A1, A2, A3) as SequentialItem>::lemma_front_of_encoding((value.0, value.1, value.2, value.3), last + rest);
        assert(data.skip(front.len() as int) =~= last + rest);
        A4::lemma_front_of_encoding(value.4, rest);
    }

    fn deserialize_front(data: &[u8]) -> (result: Result<(Self, usize), StdError>) {
        let ((part0, part1, part2, part3), taken) = match <(A0, A1, A2, A3) as SequentialItem>::deserialize_front(data) {
            Ok(front) => front,
            Err(error) => {
                return Err(error);
            },
        };
        proof {
            <(A0, A1, A2, A3) as SequentialItem>::lemma_front_fits(data@);
        }
        let rest = slice_subrange(data, taken, data.len());
        assert(rest@ =~= data@.skip(taken as int));
        let (last, more) = match A4::deserialize_front(rest) {
            Ok(front) => front,
            Err(error) => {
                return Err(error);
            },
        };
        proof {
            A4::lemma_front_fits(rest@);
        }
        Ok(((part0, part1, part2, part3, last), taken + more))
    }
}

/// The encoding of a tuple of six: those of its parts, one after the
/// other.
pub open spec fn tuple6_encoding<
    A0: SerializableItem,
    A1: SerializableItem,
    A2: SerializableItem,
    A3: SerializableItem,
    A4: SerializableItem,
    A5: SerializableItem,
>(value: (A0::V, A1::V, A2::V, A3::V, A4::V, A5::V)) -> Option<Seq<u8>> {
    match (tuple5_encoding::<A0, A1, A2, A3, A4>((value.0, value.1, value.2, value.3, value.4)), A5::encoding(value.5)) {
        (Some(front), Some(last)) => Some(front + last),
        _ => None,
    }
}

/// The tuple of six at the front of `data`: its parts, each at the front
/// of what follows the one before.
pub open spec fn tuple6_front<
    A0: SequentialItem,
    A1: SequentialItem,
    A2: SequentialItem,
    A3: SequentialItem,
    A4: SequentialItem,
    A5: SequentialItem,
>(data: Seq<u8>) -> Option<((A0::V, A1::V, A2::V, A3::V, A4::V, A5::V), nat)> {
    match tuple5_front::<A0, A1, A2, A3, A4>(data) {
        Some((prefix, taken)) => match A5::decoding_front(data.skip(taken as int)) {
            Some((last, more)) => Some(((prefix.0, prefix.1, prefix.2, prefix.3, prefix.4, last), taken + more)),
            None => None,
        },
        None => None,
    }
}

impl<
    A0: SequentialItem,
    A1: SequentialItem,
    A2: SequentialItem,
    A3: SequentialItem,
    A4: SequentialItem,
    A5: SequentialItem,
> SerializableItem for (A0, A1, A2, A3, A4, A5) {
    open spec fn encoding(value: (A0::V, A1::V, A2::V, A3::V, A4::V, A5::V)) -> Option<Seq<u8>> {
        tuple6_encoding::<A0, A1, A2, A3, A4, A5>(value)
    }

    open spec fn decoding(data: Seq<u8>) -> Option<(A0::V, A1::V, A2::V, A3::V, A4::V, A5::V)> {
        whole_front(tuple6_front::<A0, A1, A2, A3, A4, A5>(data), data.len())
    }

    proof fn lemma_round_trip(value: (A0, A1, A2, A3, A4, A5)) {
        let encoded = tuple6_encoding::<A0, A1, A2, A3, A4, A5>(value@).unwrap();
        <(A0, A1, A2, A3, A4, A5) as SequentialItem>::lemma_front_of_encoding(value, Seq::empty());
        assert(encoded + Seq::<u8>::empty() =~= encoded);
    }

    fn serialize_to_owned(&self) -> (result: Result<Vec<u8>, StdError>) {
        let mut bytes = match self.0.serialize_to_owned() {
            Ok(bytes) => bytes,
            Err(error) => {
                return Err(error);
            },
        };
        let mut next = match self.1.serialize_to_owned() {
            Ok(bytes) => bytes,
            Err(error) => {
                return Err(error);
            },
        };
        bytes.append(&mut next);
        let mut next = match self.2.serialize_to_owned() {
            Ok(bytes) => bytes,
            Err(error) => {
                return Err(error);
            },
        };
        bytes.append(&mut next);
        let mut next = match self.3.serialize_to_owned() {
            Ok(bytes) => bytes,
            Err(error) => {
                return Err(error);
            },
        };
        bytes.append(&mut next);
        let mut next = match self.4.serialize_to_owned() {
            Ok(bytes) => bytes,
            Err(error) => {
                return Err(error);
            },
        };
        bytes.append(&mut next);
        let mut next = match self.5.serialize_to_owned() {
            Ok(bytes) => bytes,
            Err(error) => {
                return Err(error);
            },
        };
        bytes.append(&mut next);
        Ok(bytes)
    }

    fn serialize_as_ref(&self) -> (result: Option<&[u8]>) {
        None
    }

    fn deserialize_to_owned(data: &[u8]) -> (result: Result<Self, StdError>) {
        match <(A0, A1, A2, A3, A4, A5) as SequentialItem>::deserialize_front(data) {
            Ok((value, taken)) => {
                if taken == data.len() {
                    Ok(value)
                } else {
                    Err(StdError::ParseErr)
                }
            },
            Err(error) => Err(error),
        }
    }

    fn deserialize_as_ref(data: &[u8]) -> (result: Option<&Self>) {
        None
    }
}

impl<
    A0: SequentialItem,
    A1: SequentialItem,
    A2: SequentialItem,
    A3: SequentialItem,
    A4: SequentialItem,
    A5: SequentialItem,
> SequentialItem for (A0, A1, A2, A3, A4, A5) {
    open spec fn decoding_front(data: Seq<u8>) -> Option<((A0::V, A1::V, A2::V, A3::V, A4::V, A5::V), nat)> {
        tuple6_front::<A0, A1, A2, A3, A4, A5>(data)
    }

    proof fn lemma_decoding_is_whole_front(data: Seq<u8>) {
    }

    proof fn lemma_front_fits(data: Seq<u8>) {
        <(A0, A1, A2, A3, A4) as SequentialItem>::lemma_front_fits(data);
        match tuple5_front::<A0, A1, A2, A3, A4>(data) {
            Some((prefix, taken)) => {
                A5::lemma_front_fits(data.skip(taken as int));
            },
            None => {},
        }
    }

    proof fn lemma_front_of_encoding(value: (A0, A1, A2, A3, A4, A5), rest: Seq<u8>) {
        let front = tuple5_encoding::<A0, A1, A2, A3, A4>((value@.0, value@.1, value@.2, value@.3, value@.4)).unwrap();
        let last = A5::encoding(value.5@).unwrap();
        let data = front + last + rest;
        assert(data =~= front + (last + rest));
        <(A0, A1, A2, A3, A4) as SequentialItem>::lemma_front_of_encoding((value.0, value.1, value.2, value.3, value.4), last + rest);
        assert(data.skip(front.len() as int) =~= last + rest);
        A5::lemma_front_of_encoding(value.5, rest);
    }

    fn deserialize_front(data: &[u8]) -> (result: Result<(Self, usize), StdError>) {
        let ((part0, part1, part2, part3, part4), taken) = match <(A0, A1, A2, A3, A4) as SequentialItem>::deserialize_front(data) {
            Ok(front) => front,
            Err(error) => {
                return Err(error);
            },
        };
        proof {
            <(A0, A1, A2, A3, A4) as SequentialItem>::lemma_front_fits(data@);
        }
        let rest = slice_subrange(data, taken, data.len());
        assert(rest@ =~= data@.skip(taken as int));
        let (last, more) = match A5::deserialize_front(rest) {
            Ok(front) => front,
            Err(error) => {
                return Err(error);
            },
        };
        proof {
            A5::lemma_front_fits(rest@);
        }
        Ok(((part0, part1, part2, part3, part4, last), taken + more))
    }
}

/// The encoding of a tuple of seven: those of its parts, one after the
/// other.
pub open spec fn tuple7_encoding<
    A0: SerializableItem,
    A1: SerializableItem,
    A2: SerializableItem,
    A3: SerializableItem,
    A4: SerializableItem,
    A5: SerializableItem,
    A6: SerializableItem,
>(value: (A0::V, A1::V, A2::V, A3::V, A4::V, A5::V, A6::V)) -> Option<Seq<u8>> {
    match (tuple6_encoding::<A0, A1, A2, A3, A4, A5>((value.0, value.1, value.2, value.3, value.4, value.5)), A6::encoding(value.6)) {
        (Some(front), Some(last)) => Some(front + last),
        _ => None,
    }
}

/// The tuple of seven at the front of `data`: its parts, each at the front
/// of what follows the one before.
pub open spec fn tuple7_front<
    A0: SequentialItem,
    A1: SequentialItem,
    A2: SequentialItem,
    A3: SequentialItem,
    A4: SequentialItem,
    A5: SequentialItem,
    A6: SequentialItem,
>(data: Seq<u8>) -> Option<((A0::V, A1::V, A2::V, A3::V, A4::V, A5::V, A6::V), nat)> {
    match tuple6_front::<A0, A1, A2, A3, A4, A5>(data) {
        Some((prefix, taken)) => match A6::decoding_front(data.skip(taken as int)) {
            Some((last, more)) => Some(((prefix.0, prefix.1, prefix.2, prefix.3, prefix.4, prefix.5, last), taken + more)),
            None => None,
        },
        None => None,
    }
}

impl<
    A0: SequentialItem,
    A1: SequentialItem,
    A2: SequentialItem,
    A3: SequentialItem,
    A4: SequentialItem,
    A5: SequentialItem,
    A6: SequentialItem,
> SerializableItem for (A0, A1, A2, A3, A4, A5, A6) {
    open spec fn encoding(value: (A0::V, A1::V, A2::V, A3::V, A4::V, A5::V, A6::V)) -> Option<Seq<u8>> {
        tuple7_encoding::<A0, A1, A2, A3, A4, A5, A6>(value)
    }

    open spec fn decoding(data: Seq<u8>) -> Option<(A0::V, A1::V, A2::V, A3::V, A4::V, A5::V, A6::V)> {
        whole_front(tuple7_front::<A0, A1, A2, A3, A4, A5, A6>(data), data.len())
    }

    proof fn lemma_round_trip(value: (A0, A1, A2, A3, A4, A5, A6)) {
        let encoded = tuple7_encoding::<A0, A1, A2, A3, A4, A5, A6>(value@).unwrap();
        <(A0, A1, A2, A3, A4, A5, A6) as SequentialItem>::lemma_front_of_encoding(value, Seq::empty());
        assert(encoded + Seq::<u8>::empty() =~= encoded);
    }

    fn serialize_to_owned(&self) -> (result: Result<Vec<u8>, StdError>) {
        let mut bytes = match self.0.serialize_to_owned() {
            Ok(bytes) => bytes,
            Err(error) => {
                return Err(error);
            },
        };
        let mut next = match self.1.serialize_to_owned() {
            Ok(bytes) => bytes,
            Err(error) => {
                return Err(error);
            },
        };
        bytes.append(&mut next);
        let mut next = match self.2.serialize_to_owned() {
            Ok(bytes) => bytes,
            Err(error) => {
                return Err(error);
            },
        };
        bytes.append(&mut next);
        let mut next = match self.3.serialize_to_owned() {
            Ok(bytes) => bytes,
            Err(error) => {
                return Err(error);
            },
        };
        bytes.append(&mut next);
        let mut next = match self.4.serialize_to_owned() {
            Ok(bytes) => bytes,
            Err(error) => {
                return Err(error);
            },
        };
        bytes.append(&mut next);
        let mut next = match self.5.serialize_to_owned() {
            Ok(bytes) => bytes,
            Err(error) => {
                return Err(error);
            },
        };
        bytes.append(&mut next);
        let mut next = match self.6.serialize_to_owned() {
            Ok(bytes) => bytes,
            Err(error) => {
                return Err(error);
            },
        };
        bytes.append(&mut next);
        Ok(bytes)
    }

    fn serialize_as_ref(&self) -> (result: Option<&[u8]>) {
        None
    }

    fn deserialize_to_owned(data: &[u8]) -> (result: Result<Self, StdError>) {
        match <(A0, A1, A2, A3, A4, A5, A6) as SequentialItem>::deserialize_front(data) {
            Ok((value, taken)) => {
                if taken == data.len() {
                    Ok(value)
                } else {
                    Err(StdError::ParseErr)
                }
            },
            Err(error) => Err(error),
        }
    }

    fn deserialize_as_ref(data: &[u8]) -> (result: Option<&Self>) {
        None
    }
}

impl<
    A0: SequentialItem,
    A1: SequentialItem,
    A2: SequentialItem,
    A3: SequentialItem,
    A4: SequentialItem,
    A5: SequentialItem,
    A6: SequentialItem,
> SequentialItem for (A0, A1, A2, A3, A4, A5, A6) {
    open spec fn decoding_front(data: Seq<u8>) -> Option<((A0::V, A1::V, A2::V, A3::V, A4::V, A5::V, A6::V), nat)> {
        tuple7_front::<A0, A1, A2, A3, A4, A5, A6>(data)
    }

    proof fn lemma_decoding_is_whole_front(data: Seq<u8>) {
    }

    proof fn lemma_front_fits(data: Seq<u8>) {
        <(A0, A1, A2, A3, A4, A5) as SequentialItem>::lemma_front_fits(data);
        match tuple6_front::<A0, A1, A2, A3, A4, A5>(data) {
            Some((prefix, taken)) => {
                A6::lemma_front_fits(data.skip(taken as int));
            },
            None => {},
        }
    }

    proof fn lemma_front_of_encoding(value: (A0, A1, A2, A3, A4, A5, A6), rest: Seq<u8>) {
        let front = tuple6_encoding::<A0, A1, A2, A3, A4, A5>((value@.0, value@.1, value@.2, value@.3, value@.4, value@.5)).unwrap();
        let last = A6::encoding(value.6@).unwrap();
        let data = front + last + rest;
        assert(data =~= front + (last + rest));
        <(A0, A1, A2, A3, A4, A5) as SequentialItem>::lemma_front_of_encoding((value.0, value.1, value.2, value.3, value.4, value.5), last + rest);
        assert(data.skip(front.len() as int) =~= last + rest);
        A6::lemma_front_of_encoding(value.6, rest);
    }

    fn deserialize_front(data: &[u8]) -> (result: Result<(Self, usize), StdError>) {
        let ((part0, part1, part2, part3, part4, part5), taken) = match <(A0, A1, A2, A3, A4, A5) as SequentialItem>::deserialize_front(data) {
            Ok(front) => front,
            Err(error) => {
                return Err(error);
            },
        };
        proof {
            <(A0, A1, A2, A3, A4, A5) as SequentialItem>::lemma_front_fits(data@);
        }
        let rest = slice_subrange(data, taken, data.len());
        assert(rest@ =~= data@.skip(taken as int));
        let (last, more) = match A6::deserialize_front(rest) {
            Ok(front) => front,
            Err(error) => {
                return Err(error);
            },
        };
        proof {
            A6::lemma_front_fits(rest@);
        }
        Ok(((part0, part1, part2, part3, part4, part5, last), taken + more))
    }
}

/// The encoding of a tuple of eight: those of its parts, one after the
/// other.
pub open spec fn tuple8_encoding<
    A0: SerializableItem,
    A1: SerializableItem,
    A2: SerializableItem,
    A3: SerializableItem,
    A4: SerializableItem,
    A5: SerializableItem,
    A6: SerializableItem,
    A7: SerializableItem,
>(value: (A0::V, A1::V, A2::V, A3::V, A4::V, A5::V, A6::V, A7::V)) -> Option<Seq<u8>> {
    match (tuple7_encoding::<A0, A1, A2, A3, A4, A5, A6>((value.0, value.1, value.2, value.3, value.4, value.5, value.6)), A7::encoding(value.7)) {
        (Some(front), Some(last)) => Some(front + last),
        _ => None,
    }
}

/// The tuple of eight at the front of `data`: its parts, each at the front
/// of what follows the one before.
pub open spec fn tuple8_front<
    A0: SequentialItem,
    A1: SequentialItem,
    A2: SequentialItem,
    A3: SequentialItem,
    A4: SequentialItem,
    A5: SequentialItem,
    A6: SequentialItem,
    A7: SequentialItem,
>(data: Seq<u8>) -> Option<((A0::V, A1::V, A2::V, A3::V, A4::V, A5::V, A6::V, A7::V), nat)> {
    match tuple7_front::<A0, A1, A2, A3, A4, A5, A6>(data) {
        Some((prefix, taken)) => match A7::decoding_front(data.skip(taken as int)) {
            Some((last, more)) => Some(((prefix.0, prefix.1, prefix.2, prefix.3, prefix.4, prefix.5, prefix.6, last), taken + more)),
            None => None,
        },
        None => None,
    }
}

impl<
    A0: SequentialItem,
    A1: SequentialItem,
    A2: SequentialItem,
    A3: SequentialItem,
    A4: SequentialItem,
    A5: SequentialItem,
    A6: SequentialItem,
    A7: SequentialItem,
> SerializableItem for (A0, A1, A2, A3, A4, A5, A6, A7) {
    open spec fn encoding(value: (A0::V, A1::V, A2::V, A3::V, A4::V, A5::V, A6::V, A7::V)) -> Option<Seq<u8>> {
        tuple8_encoding::<A0, A1, A2, A3, A4, A5, A6, A7>(value)
    }

    open spec fn decoding(data: Seq<u8>) -> Option<(A0::V, A1::V, A2::V, A3::V, A4::V, A5::V, A6::V, A7::V)> {
        whole_front(tuple8_front::<A0, A1, A2, A3, A4, A5, A6, A7>(data), data.len())
    }

    proof fn lemma_round_trip(value: (A0, A1, A2, A3, A4, A5, A6, A7)) {
        let encoded = tuple8_encoding::<A0, A1, A2, A3, A4, A5, A6, A7>(value@).unwrap();
        <(A0, A1, A2, A3, A4, A5, A6, A7) as SequentialItem>::lemma_front_of_encoding(value, Seq::empty());
        assert(encoded + Seq::<u8>::empty() =~= encoded);
    }

    fn serialize_to_owned(&self) -> (result: Result<Vec<u8>, StdError>) {
        let mut bytes = match self.0.serialize_to_owned() {
            Ok(bytes) => bytes,
            Err(error) => {
                return Err(error);
            },
        };
        let mut next = match self.1.serialize_to_owned() {
            Ok(bytes) => bytes,
            Err(error) => {
                return Err(error);
            },
        };
        bytes.append(&mut next);
        let mut next = match self.2.serialize_to_owned() {
            Ok(bytes) => bytes,
            Err(error) => {
                return Err(error);
            },
        };
        bytes.append(&mut next);
        let mut next = match self.3.serialize_to_owned() {
            Ok(bytes) => bytes,
            Err(error) => {
                return Err(error);
            },
        };
        bytes.append(&mut next);
        let mut next = match self.4.serialize_to_owned() {
            Ok(bytes) => bytes,
            Err(error) => {
                return Err(error);
            },
        };
        bytes.append(&mut next);
        let mut next = match self.5.serialize_to_owned() {
            Ok(bytes) => bytes,
            Err(error) => {
                return Err(error);
            },
        };
        bytes.append(&mut next);
        let mut next = match self.6.serialize_to_owned() {
            Ok(bytes) => bytes,
            Err(error) => {
                return Err(error);
            },
        };
        bytes.append(&mut next);
        let mut next = match self.7.serialize_to_owned() {
            Ok(bytes) => bytes,
            Err(error) => {
                return Err(error);
            },
        };
        bytes.append(&mut next);
        Ok(bytes)
    }

    fn serialize_as_ref(&self) -> (result: Option<&[u8]>) {
        None
    }

    fn deserialize_to_owned(data: &[u8]) -> (result: Result<Self, StdError>) {
        match <(A0, A1, A2, A3, A4, A5, A6, A7) as SequentialItem>::deserialize_front(data) {
            Ok((value, taken)) => {
                if taken == data.len() {
                    Ok(value)
                } else {
                    Err(StdError::ParseErr)
                }
            },
            Err(error) => Err(error),
        }
    }

    fn deserialize_as_ref(data: &[u8]) -> (result: Option<&Self>) {
        None
    }
}

impl<
    A0: SequentialItem,
    A1: SequentialItem,
    A2: SequentialItem,
    A3: SequentialItem,
    A4: SequentialItem,
    A5: SequentialItem,
    A6: SequentialItem,
    A7: SequentialItem,
> SequentialItem for (A0, A1, A2, A3, A4, A5, A6, A7) {
    open spec fn decoding_front(data: Seq<u8>) -> Option<((A0::V, A1::V, A2::V, A3::V, A4::V, A5::V, A6::V, A7::V), nat)> {
        tuple8_front::<A0, A1, A2, A3, A4, A5, A6, A7>(data)
    }

    proof fn lemma_decoding_is_whole_front(data: Seq<u8>) {
    }

    proof fn lemma_front_fits(data: Seq<u8>) {
        <(A0, A1, A2, A3, A4, A5, A6) as SequentialItem>::lemma_front_fits(data);
        match tuple7_front::<A0, A1, A2, A3, A4, A5, A6>(data) {
            Some((prefix, taken)) => {
                A7::lemma_front_fits(data.skip(taken as int));
            },
            None => {},
        }
    }

    proof fn lemma_front_of_encoding(value: (A0, A1, A2, A3, A4, A5, A6, A7), rest: Seq<u8>) {
        let front = tuple7_encoding::<A0, A1, A2, A3, A4, A5, A6>((value@.0, value@.1, value@.2, value@.3, value@.4, value@.5, value@.6)).unwrap();
        let last = A7::encoding(value.7@).unwrap();
        let data = front + last + rest;
        assert(data =~= front + (last + rest));
        <(A0, A1, A2, A3, A4, A5, A6) as SequentialItem>::lemma_front_of_encoding((value.0, value.1, value.2, value.3, value.4, value.5, value.6), last + rest);
        assert(data.skip(front.len() as int) =~= last + rest);
        A7::lemma_front_of_encoding(value.7, rest);
    }

    fn deserialize_front(data: &[u8]) -> (result: Result<(Self, usize), StdError>) {
        let ((part0, part1, part2, part3, part4, part5, part6), taken) = match <(A0, A1, A2, A3, A4, A5, A6) as SequentialItem>::deserialize_front(data) {
            Ok(front) => front,
            Err(error) => {
                return Err(error);
            },
        };
        proof {
            <(A0, A1, A2, A3, A4, A5, A6) as SequentialItem>::lemma_front_fits(data@);
        }
        let rest = slice_subrange(data, taken, data.len());
        assert(rest@ =~= data@.skip(taken as int));
        let (last, more) = match A7::deserialize_front(rest) {
            Ok(front) => front,
            Err(error) => {
                return Err(error);
            },
        };
        proof {
            A7::lemma_front_fits(rest@);
        }
        Ok(((part0, part1, part2, part3, part4, part5, part6, last), taken + more))
    }
}

/// The encoding of a tuple of nine: those of its parts, one after the
/// other.
pub open spec fn tuple9_encoding<
    A0: SerializableItem,
    A1: SerializableItem,
    A2: SerializableItem,
    A3: SerializableItem,
    A4: SerializableItem,
    A5: SerializableItem,
    A6: SerializableItem,
    A7: SerializableItem,
    A8: SerializableItem,
>(value: (A0::V, A1::V, A2::V, A3::V, A4::V, A5::V, A6::V, A7::V, A8::V)) -> Option<Seq<u8>> {
    match (tuple8_encoding::<A0, A1, A2, A3, A4, A5, A6, A7>((value.0, value.1, value.2, value.3, value.4, value.5, value.6, value.7)), A8::encoding(value.8)) {
        (Some(front), Some(last)) => Some(front + last),
        _ => None,
    }
}

/// The tuple of nine at the front of `data`: its parts, each at the front
/// of what follows the one before.
pub open spec fn tuple9_front<
    A0: SequentialItem,
    A1: SequentialItem,
    A2: SequentialItem,
    A3: SequentialItem,
    A4: SequentialItem,
    A5: SequentialItem,
    A6: SequentialItem,
    A7: SequentialItem,
    A8: SequentialItem,
>(data: Seq<u8>) -> Option<((A0::V, A1::V, A2::V, A3::V, A4::V, A5::V, A6::V, A7::V, A8::V), nat)> {
    match tuple8_front::<A0, A1, A2, A3, A4, A5, A6, A7>(data) {
        Some((prefix, taken)) => match A8::decoding_front(data.skip(taken as int)) {
            Some((last, more)) => Some(((prefix.0, prefix.1, prefix.2, prefix.3, prefix.4, prefix.5, prefix.6, prefix.7, last), taken + more)),
            None => None,
        },
        None => None,
    }
}

impl<
    A0: SequentialItem,
    A1: SequentialItem,
    A2: SequentialItem,
    A3: SequentialItem,
    A4: SequentialItem,
    A5: SequentialItem,
    A6: SequentialItem,
    A7: SequentialItem,
    A8: SequentialItem,
> SerializableItem for (A0, A1, A2, A3, A4, A5, A6, A7, A8) {
    open spec fn encoding(value: (A0::V, A1::V, A2::V, A3::V, A4::V, A5::V, A6::V, A7::V, A8::V)) -> Option<Seq<u8>> {
        tuple9_encoding::<A0, A1, A2, A3, A4, A5, A6, A7, A8>(value)
    }

    open spec fn decoding(data: Seq<u8>) -> Option<(A0::V, A1::V, A2::V, A3::V, A4::V, A5::V, A6::V, A7::V, A8::V)> {
        whole_front(tuple9_front::<A0, A1, A2, A3, A4, A5, A6, A7, A8>(data), data.len())
    }

    proof fn lemma_round_trip(value: (A0, A1, A2, A3, A4, A5, A6, A7, A8)) {
        let encoded = tuple9_encoding::<A0, A1, A2, A3, A4, A5, A6, A7, A8>(value@).unwrap();
        <(A0, A1, A2, A3, A4, A5, A6, A7, A8) as SequentialItem>::lemma_front_of_encoding(value, Seq::empty());
        assert(encoded + Seq::<u8>::empty() =~= encoded);
    }

    fn serialize_to_owned(&self) -> (result: Result<Vec<u8>, StdError>) {
        let mut bytes = match self.0.serialize_to_owned() {
            Ok(bytes) => bytes,
            Err(error) => {
                return Err(error);
            },
        };
        let mut next = match self.1.serialize_to_owned() {
            Ok(bytes) => bytes,
            Err(error) => {
                return Err(error);
            },
        };
        bytes.append(&mut next);
        let mut next = match self.2.serialize_to_owned() {
            Ok(bytes) => bytes,
            Err(error) => {
                return Err(error);
            },
        };
        bytes.append(&mut next);
        let mut next = match self.3.serialize_to_owned() {
            Ok(bytes) => bytes,
            Err(error) => {
                return Err(error);
            },
        };
        bytes.append(&mut next);
        let mut next = match self.4.serialize_to_owned() {
            Ok(bytes) => bytes,
            Err(error) => {
                return Err(error);
            },
        };
        bytes.append(&mut next);
        let mut next = match self.5.serialize_to_owned() {
            Ok(bytes) => bytes,
            Err(error) => {
                return Err(error);
            },
        };
        bytes.append(&mut next);
        let mut next = match self.6.serialize_to_owned() {
            Ok(bytes) => bytes,
            Err(error) => {
                return Err(error);
            },
        };
        bytes.append(&mut next);
        let mut next = match self.7.serialize_to_owned() {
            Ok(bytes) => bytes,
            Err(error) => {
                return Err(error);
            },
        };
        bytes.append(&mut next);
        let mut next = match self.8.serialize_to_owned() {
            Ok(bytes) => bytes,
            Err(error) => {
                return Err(error);
            },
        };
        bytes.append(&mut next);
        Ok(bytes)
    }

    fn serialize_as_ref(&self) -> (result: Option<&[u8]>) {
        None
    }

    fn deserialize_to_owned(data: &[u8]) -> (result: Result<Self, StdError>) {
        match <(A0, A1, A2, A3, A4, A5, A6, A7, A8) as SequentialItem>::deserialize_front(data) {
            Ok((value, taken)) => {
                if taken == data.len() {
                    Ok(value)
                } else {
                    Err(StdError::ParseErr)
                }
            },
            Err(error) => Err(error),
        }
    }

    fn deserialize_as_ref(data: &[u8]) -> (result: Option<&Self>) {
        None
    }
}

impl<
    A0: SequentialItem,
    A1: SequentialItem,
    A2: SequentialItem,
    A3: SequentialItem,
    A4: SequentialItem,
    A5: SequentialItem,
    A6: SequentialItem,
    A7: SequentialItem,
    A8: SequentialItem,
> SequentialItem for (A0, A1, A2, A3, A4, A5, A6, A7, A8) {
    open spec fn decoding_front(data: Seq<u8>) -> Option<((A0::V, A1::V, A2::V, A3::V, A4::V, A5::V, A6::V, A7::V, A8::V), nat)> {
        tuple9_front::<A0, A1, A2, A3, A4, A5, A6, A7, A8>(data)
    }

    proof fn lemma_decoding_is_whole_front(data: Seq<u8>) {
    }

    proof fn lemma_front_fits(data: Seq<u8>) {
        <(A0, A1, A2, A3, A4, A5, A6, A7) as SequentialItem>::lemma_front_fits(data);
        match tuple8_front::<A0, A1, A2, A3, A4, A5, A6, A7>(data) {
            Some((prefix, taken)) => {
                A8::lemma_front_fits(data.skip(taken as int));
            },
            None => {},
        }
    }

    proof fn lemma_front_of_encoding(value: (A0, A1, A2, A3, A4, A5, A6, A7, A8), rest: Seq<u8>) {
        let front = tuple8_encoding::<A0, A1, A2, A3, A4, A5, A6, A7>((value@.0, value@.1, value@.2, value@.3, value@.4, value@.5, value@.6, value@.7)).unwrap();
        let last = A8::encoding(value.8@).unwrap();
        let data = front + last + rest;
        assert(data =~= front + (last + rest));
        <(A0, A1, A2, A3, A4, A5, A6, A7) as SequentialItem>::lemma_front_of_encoding((value.0, value.1, value.2, value.3, value.4, value.5, value.6, value.7), last + rest);
        assert(data.skip(front.len() as int) =~= last + rest);
        A8::lemma_front_of_encoding(value.8, rest);
    }

    fn deserialize_front(data: &[u8]) -> (result: Result<(Self, usize), StdError>) {
        let ((part0, part1, part2, part3, part4, part5, part6, part7), taken) = match <(A0, A1, A2, A3, A4, A5, A6, A7) as SequentialItem>::deserialize_front(data) {
            Ok(front) => front,
            Err(error) => {
                return Err(error);
            },
        };
        proof {
            <(A0, A1, A2, A3, A4, A5, A6, A7) as SequentialItem>::lemma_front_fits(data@);
        }
        let rest = slice_subrange(data, taken, data.len());
        assert(rest@ =~= data@.skip(taken as int));
        let (last, more) = match A8::deserialize_front(rest) {
            Ok(front) => front,
            Err(error) => {
                return Err(error);
            },
        };
        proof {
            A8::lemma_front_fits(rest@);
        }
        Ok(((part0, part1, part2, part3, part4, part5, part6, part7, last), taken + more))
    }
}

/// The encoding of a tuple of ten: those of its parts, one after the
/// other.
pub open spec fn tuple10_encoding<
    A0: SerializableItem,
    A1: SerializableItem,
    A2: SerializableItem,
    A3: SerializableItem,
    A4: SerializableItem,
    A5: SerializableItem,
    A6: SerializableItem,
    A7: SerializableItem,
    A8: SerializableItem,
    A9: SerializableItem,
>(value: (A0::V, A1::V, A2::V, A3::V, A4::V, A5::V, A6::V, A7::V, A8::V, A9::V)) -> Option<Seq<u8>> {
    match (tuple9_encoding::<A0, A1, A2, A3, A4, A5, A6, A7, A8>((value.0, value.1, value.2, value.3, value.4, value.5, value.6, value.7, value.8)), A9::encoding(value.9)) {
        (Some(front), Some(last)) => Some(front + last),
        _ => None,
    }
}

/// The tuple of ten at the front of `data`: its parts, each at the front
/// of what follows the one before.
pub open spec fn tuple10_front<
    A0: SequentialItem,
    A1: SequentialItem,
    A2: SequentialItem,
    A3: SequentialItem,
    A4: SequentialItem,
    A5: SequentialItem,
    A6: SequentialItem,
    A7: SequentialItem,
    A8: SequentialItem,
    A9: SequentialItem,
>(data: Seq<u8>) -> Option<((A0::V, A1::V, A2::V, A3::V, A4::V, A5::V, A6::V, A7::V, A8::V, A9::V), nat)> {
    match tuple9_front::<A0, A1, A2, A3, A4, A5, A6, A7, A8>(data) {
        Some((prefix, taken)) => match A9::decoding_front(data.skip(taken as int)) {
            Some((last, more)) => Some(((prefix.0, prefix.1, prefix.2, prefix.3, prefix.4, prefix.5, prefix.6, prefix.7, prefix.8, last), taken + more)),
            None => None,
        },
        None => None,
    }
}

impl<
    A0: SequentialItem,
    A1: SequentialItem,
    A2: SequentialItem,
    A3: SequentialItem,
    A4: SequentialItem,
    A5: SequentialItem,
    A6: SequentialItem,
    A7: SequentialItem,
    A8: SequentialItem,
    A9: SequentialItem,
> SerializableItem for (A0, A1, A2, A3, A4, A5, A6, A7, A8, A9) {
    open spec fn encoding(value: (A0::V, A1::V, A2::V, A3::V, A4::V, A5::V, A6::V, A7::V, A8::V, A9::V)) -> Option<Seq<u8>> {
        tuple10_encoding::<A0, A1, A2, A3, A4, A5, A6, A7, A8, A9>(value)
    }

    open spec fn decoding(data: Seq<u8>) -> Option<(A0::V, A1::V, A2::V, A3::V, A4::V, A5::V, A6::V, A7::V, A8::V, A9::V)> {
        whole_front(tuple10_front::<A0, A1, A2, A3, A4, A5, A6, A7, A8, A9>(data), data.len())
    }

    proof fn lemma_round_trip(value: (A0, A1, A2, A3, A4, A5, A6, A7, A8, A9)) {
        let encoded = tuple10_encoding::<A0, A1, A2, A3, A4, A5, A6, A7, A8, A9>(value@).unwrap();
        <(A0, A1, A2, A3, A4, A5, A6, A7, A8, A9) as SequentialItem>::lemma_front_of_encoding(value, Seq::empty());
        assert(encoded + Seq::<u8>::empty() =~= encoded);
    }

    fn serialize_to_owned(&self) -> (result: Result<Vec<u8>, StdError>) {
        let mut bytes = match self.0.serialize_to_owned() {
            Ok(bytes) => bytes,
            Err(error) => {
                return Err(error);
            },
        };
        let mut next = match self.1.serialize_to_owned() {
            Ok(bytes) => bytes,
            Err(error) => {
                return Err(error);
            },
        };
        bytes.append(&mut next);
        let mut next = match self.2.serialize_to_owned() {
            Ok(bytes) => bytes,
            Err(error) => {
                return Err(error);
            },
        };
        bytes.append(&mut next);
        let mut next = match self.3.serialize_to_owned() {
            Ok(bytes) => bytes,
            Err(error) => {
                return Err(error);
            },
        };
        bytes.append(&mut next);
        let mut next = match self.4.serialize_to_owned() {
            Ok(bytes) => bytes,
            Err(error) => {
                return Err(error);
            },
        };
        bytes.append(&mut next);
        let mut next = match self.5.serialize_to_owned() {
            Ok(bytes) => bytes,
            Err(error) => {
                return Err(error);
            },
        };
        bytes.append(&mut next);
        let mut next = match self.6.serialize_to_owned() {
            Ok(bytes) => bytes,
            Err(error) => {
                return Err(error);
            },
        };
        bytes.append(&mut next);
        let mut next = match self.7.serialize_to_owned() {
            Ok(bytes) => bytes,
            Err(error) => {
                return Err(error);
            },
        };
        bytes.append(&mut next);
        let mut next = match self.8.serialize_to_owned() {
            Ok(bytes) => bytes,
            Err(error) => {
                return Err(error);
            },
        };
        bytes.append(&mut next);
        let mut next = match self.9.serialize_to_owned() {
            Ok(bytes) => bytes,
            Err(error) => {
                return Err(error);
            },
        };
        bytes.append(&mut next);
        Ok(bytes)
    }

    fn serialize_as_ref(&self) -> (result: Option<&[u8]>) {
        None
    }

    fn deserialize_to_owned(data: &[u8]) -> (result: Result<Self, StdError>) {
        match <(A0, A1, A2, A3, A4, A5, A6, A7, A8, A9) as SequentialItem>::deserialize_front(data) {
            Ok((value, taken)) => {
                if taken == data.len() {
                    Ok(value)
                } else {
                    Err(StdError::ParseErr)
                }
            },
            Err(error) => Err(error),
        }
    }

    fn deserialize_as_ref(data: &[u8]) -> (result: Option<&Self>) {
        None
    }
}

impl<
    A0: SequentialItem,
    A1: SequentialItem,
    A2: SequentialItem,
    A3: SequentialItem,
    A4: SequentialItem,
    A5: SequentialItem,
    A6: SequentialItem,
    A7: SequentialItem,
    A8: SequentialItem,
    A9: SequentialItem,
> SequentialItem for (A0, A1, A2, A3, A4, A5, A6, A7, A8, A9) {
    open spec fn decoding_front(data: Seq<u8>) -> Option<((A0::V, A1::V, A2::V, A3::V, A4::V, A5::V, A6::V, A7::V, A8::V, A9::V), nat)> {
        tuple10_front::<A0, A1, A2, A3, A4, A5, A6, A7, A8, A9>(data)
    }

    proof fn lemma_decoding_is_whole_front(data: Seq<u8>) {
    }

    proof fn lemma_front_fits(data: Seq<u8>) {
        <(A0, A1, A2, A3, A4, A5, A6, A7, A8) as SequentialItem>::lemma_front_fits(data);
        match tuple9_front::<A0, A1, A2, A3, A4, A5, A6, A7, A8>(data) {
            Some((prefix, taken)) => {
                A9::lemma_front_fits(data.skip(taken as int));
            },
            None => {},
        }
    }

    proof fn lemma_front_of_encoding(value: (A0, A1, A2, A3, A4, A5, A6, A7, A8, A9), rest: Seq<u8>) {
        let front = tuple9_encoding::<A0, A1, A2, A3, A4, A5, A6, A7, A8>((value@.0, value@.1, value@.2, value@.3, value@.4, value@.5, value@.6, value@.7, value@.8)).unwrap();
        let last = A9::encoding(value.9@).unwrap();
        let data = front + last + rest;
        assert(data =~= front + (last + rest));
        <(A0, A1, A2, A3, A4, A5, A6, A7, A8) as SequentialItem>::lemma_front_of_encoding((value.0, value.1, value.2, value.3, value.4, value.5, value.6, value.7, value.8), last + rest);
        assert(data.skip(front.len() as int) =~= last + rest);
        A9::lemma_front_of_encoding(value.9, rest);
    }

    fn deserialize_front(data: &[u8]) -> (result: Result<(Self, usize), StdError>) {
        let ((part0, part1, part2, part3, part4, part5, part6, part7, part8), taken) = match <(A0, A1, A2, A3, A4, A5, A6, A7, A8) as SequentialItem>::deserialize_front(data) {
            Ok(front) => front,
            Err(error) => {
                return Err(error);
            },
        };
        proof {
            <(A0, A1, A2, A3, A4, A5, A6, A7, A8) as SequentialItem>::lemma_front_fits(data@);
        }
        let rest = slice_subrange(data, taken, data.len());
        assert(rest@ =~= data@.skip(taken as int));
        let (last, more) = match A9::deserialize_front(rest) {
            Ok(front) => front,
            Err(error) => {
                return Err(error);
            },
        };
        proof {
            A9::lemma_front_fits(rest@);
        }
        Ok(((part0, part1, part2, part3, part4, part5, part6, part7, part8, last), taken + more))
    }
}

/// The encoding of a tuple of eleven: those of its parts, one after the
/// other.
pub open spec fn tuple11_encoding<
    A0: SerializableItem,
    A1: SerializableItem,
    A2: SerializableItem,
    A3: SerializableItem,
    A4: SerializableItem,
    A5: SerializableItem,
    A6: SerializableItem,
    A7: SerializableItem,
    A8: SerializableItem,
    A9: SerializableItem,
    A10: SerializableItem,
>(value: (A0::V, A1::V, A2::V, A3::V, A4::V, A5::V, A6::V, A7::V, A8::V, A9::V, A10::V)) -> Option<Seq<u8>> {
    match (tuple10_encoding::<A0, A1, A2, A3, A4, A5, A6, A7, A8, A9>((value.0, value.1, value.2, value.3, value.4, value.5, value.6, value.7, value.8, value.9)), A10::encoding(value.10)) {
        (Some(front), Some(last)) => Some(front + last),
        _ => None,
    }
}

/// The tuple of eleven at the front of `data`: its parts, each at the front
/// of what follows the one before.
pub open spec fn tuple11_front<
    A0: SequentialItem,
    A1: SequentialItem,
    A2: SequentialItem,
    A3: SequentialItem,
    A4: SequentialItem,
    A5: SequentialItem,
    A6: SequentialItem,
    A7: SequentialItem,
    A8: SequentialItem,
    A9: SequentialItem,
    A10: SequentialItem,
>(data: Seq<u8>) -> Option<((A0::V, A1::V, A2::V, A3::V, A4::V, A5::V, A6::V, A7::V, A8::V, A9::V, A10::V), nat)> {
    match tuple10_front::<A0, A1, A2, A3, A4, A5, A6, A7, A8, A9>(data) {
        Some((prefix, taken)) => match A10::decoding_front(data.skip(taken as int)) {
            Some((last, more)) => Some(((prefix.0, prefix.1, prefix.2, prefix.3, prefix.4, prefix.5, prefix.6, prefix.7, prefix.8, prefix.9, last), taken + more)),
            None => None,
        },
        None => None,
    }
}

impl<
    A0: SequentialItem,
    A1: SequentialItem,
    A2: SequentialItem,
    A3: SequentialItem,
    A4: SequentialItem,
    A5: SequentialItem,
    A6: SequentialItem,
    A7: SequentialItem,
    A8: SequentialItem,
    A9: SequentialItem,
    A10: SequentialItem,
> SerializableItem for (A0, A1, A2, A3, A4, A5, A6, A7, A8, A9, A10) {
    open spec fn encoding(value: (A0::V, A1::V, A2::V, A3::V, A4::V, A5::V, A6::V, A7::V, A8::V, A9::V, A10::V)) -> Option<Seq<u8>> {
        tuple11_encoding::<A0, A1, A2, A3, A4, A5, A6, A7, A8, A9, A10>(value)
    }

    open spec fn decoding(data: Seq<u8>) -> Option<(A0::V, A1::V, A2::V, A3::V, A4::V, A5::V, A6::V, A7::V, A8::V, A9::V, A10::V)> {
        whole_front(tuple11_front::<A0, A1, A2, A3, A4, A5, A6, A7, A8, A9, A10>(data), data.len())
    }

    proof fn lemma_round_trip(value: (A0, A1, A2, A3, A4, A5, A6, A7, A8, A9, A10)) {
        let encoded = tuple11_encoding::<A0, A1, A2, A3, A4, A5, A6, A7, A8, A9, A10>(value@).unwrap();
        <(A0, A1, A2, A3, A4, A5, A6, A7, A8, A9, A10) as SequentialItem>::lemma_front_of_encoding(value, Seq::empty());
        assert(encoded + Seq::<u8>::empty() =~= encoded);
    }

    fn serialize_to_owned(&self) -> (result: Result<Vec<u8>, StdError>) {
        let mut bytes = match self.0.serialize_to_owned() {
            Ok(bytes) => bytes,
            Err(error) => {
                return Err(error);
            },
        };
        let mut next = match self.1.serialize_to_owned() {
            Ok(bytes) => bytes,
            Err(error) => {
                return Err(error);
            },
        };
        bytes.append(&mut next);
        let mut next = match self.2.serialize_to_owned() {
            Ok(bytes) => bytes,
            Err(error) => {
                return Err(error);
            },
        };
        bytes.append(&mut next);
        let mut next = match self.3.serialize_to_owned() {
            Ok(bytes) => bytes,
            Err(error) => {
                return Err(error);
            },
        };
        bytes.append(&mut next);
        let mut next = match self.4.serialize_to_owned() {
            Ok(bytes) => bytes,
            Err(error) => {
                return Err(error);
            },
        };
        bytes.append(&mut next);
        let mut next = match self.5.serialize_to_owned() {
            Ok(bytes) => bytes,
            Err(error) => {
                return Err(error);
            },
        };
        bytes.append(&mut next);
        let mut next = match self.6.serialize_to_owned() {
            Ok(bytes) => bytes,
            Err(error) => {
                return Err(error);
            },
        };
        bytes.append(&mut next);
        let mut next = match self.7.serialize_to_owned() {
            Ok(bytes) => bytes,
            Err(error) => {
                return Err(error);
            },
        };
        bytes.append(&mut next);
        let mut next = match self.8.serialize_to_owned() {
            Ok(bytes) => bytes,
            Err(error) => {
                return Err(error);
            },
        };
        bytes.append(&mut next);
        let mut next = match self.9.serialize_to_owned() {
            Ok(bytes) => bytes,
            Err(error) => {
                return Err(error);
            },
        };
        bytes.append(&mut next);
        let mut next = match self.10.serialize_to_owned() {
            Ok(bytes) => bytes,
            Err(error) => {
                return Err(error);
            },
        };
        bytes.append(&mut next);
        Ok(bytes)
    }

    fn serialize_as_ref(&self) -> (result: Option<&[u8]>) {
        None
    }

    fn deserialize_to_owned(data: &[u8]) -> (result: Result<Self, StdError>) {
        match <(A0, A1, A2, A3, A4, A5, A6, A7, A8, A9, A10) as SequentialItem>::deserialize_front(data) {
            Ok((value, taken)) => {
                if taken == data.len() {
                    Ok(value)
                } else {
                    Err(StdError::ParseErr)
                }
            },
            Err(error) => Err(error),
        }
    }

    fn deserialize_as_ref(data: &[u8]) -> (result: Option<&Self>) {
        None
    }
}

impl<
    A0: SequentialItem,
    A1: SequentialItem,
    A2: SequentialItem,
    A3: SequentialItem,
    A4: SequentialItem,
    A5: SequentialItem,
    A6: SequentialItem,
    A7: SequentialItem,
    A8: SequentialItem,
    A9: SequentialItem,
    A10: SequentialItem,
> SequentialItem for (A0, A1, A2, A3, A4, A5, A6, A7, A8, A9, A10) {
    open spec fn decoding_front(data: Seq<u8>) -> Option<((A0::V, A1::V, A2::V, A3::V, A4::V, A5::V, A6::V, A7::V, A8::V, A9::V, A10::V), nat)> {
        tuple11_front::<A0, A1, A2, A3, A4, A5, A6, A7, A8, A9, A10>(data)
    }

    proof fn lemma_decoding_is_whole_front(data: Seq<u8>) {
    }

    proof fn lemma_front_fits(data: Seq<u8>) {
        <(A0, A1, A2, A3, A4, A5, A6, A7, A8, A9) as SequentialItem>::lemma_front_fits(data);
        match tuple10_front::<A0, A1, A2, A3, A4, A5, A6, A7, A8, A9>(data) {
            Some((prefix, taken)) => {
                A10::lemma_front_fits(data.skip(taken as int));
            },
            None => {},
        }
    }

    proof fn lemma_front_of_encoding(value: (A0, A1, A2, A3, A4, A5, A6, A7, A8, A9, A10), rest: Seq<u8>) {
        let front = tuple10_encoding::<A0, A1, A2, A3, A4, A5, A6, A7, A8, A9>((value@.0, value@.1, value@.2, value@.3, value@.4, value@.5, value@.6, value@.7, value@.8, value@.9)).unwrap();
        let last = A10::encoding(value.10@).unwrap();
        let data = front + last + rest;
        assert(data =~= front + (last + rest));
        <(A0, A1, A2, A3, A4, A5, A6, A7, A8, A9) as SequentialItem>::lemma_front_of_encoding((value.0, value.1, value.2, value.3, value.4, value.5, value.6, value.7, value.8, value.9), last + rest);
        assert(data.skip(front.len() as int) =~= last + rest);
        A10::lemma_front_of_encoding(value.10, rest);
    }

    fn deserialize_front(data: &[u8]) -> (result: Result<(Self, usize), StdError>) {
        let ((part0, part1, part2, part3, part4, part5, part6, part7, part8, part9), taken) = match <(A0, A1, A2, A3, A4, A5, A6, A7, A8, A9) as SequentialItem>::deserialize_front(data) {
            Ok(front) => front,
            Err(error) => {
                return Err(error);
            },
        };
        proof {
            <(A0, A1, A2, A3, A4, A5, A6, A7, A8, A9) as SequentialItem>::lemma_front_fits(data@);
        }
        let rest = slice_subrange(data, taken, data.len());
        assert(rest@ =~= data@.skip(taken as int));
        let (last, more) = match A10::deserialize_front(rest) {
            Ok(front) => front,
            Err(error) => {
                return Err(error);
            },
        };
        proof {
            A10::lemma_front_fits(rest@);
        }
        Ok(((part0, part1, part2, part3, part4, part5, part6, part7, part8, part9, last), taken + more))
    }
}

/// The encoding of a tuple of twelve: those of its parts, one after the
/// other.
pub open spec fn tuple12_encoding<
    A0: SerializableItem,
    A1: SerializableItem,
    A2: SerializableItem,
    A3: SerializableItem,
    A4: SerializableItem,
    A5: SerializableItem,
    A6: SerializableItem,
    A7: SerializableItem,
    A8: SerializableItem,
    A9: SerializableItem,
    A10: SerializableItem,
    A11: SerializableItem,
>(value: (A0::V, A1::V, A2::V, A3::V, A4::V, A5::V, A6::V, A7::V, A8::V, A9::V, A10::V, A11::V)) -> Option<Seq<u8>> {
    match (tuple11_encoding::<A0, A1, A2, A3, A4, A5, A6, A7, A8, A9, A10>((value.0, value.1, value.2, value.3, value.4, value.5, value.6, value.7, value.8, value.9, value.10)), A11::encoding(value.11)) {
        (Some(front), Some(last)) => Some(front + last),
        _ => None,
    }
}

/// The tuple of twelve at the front of `data`: its parts, each at the front
/// of what follows the one before.
pub open spec fn tuple12_front<
    A0: SequentialItem,
    A1: SequentialItem,
    A2: SequentialItem,
    A3: SequentialItem,
    A4: SequentialItem,
    A5: SequentialItem,
    A6: SequentialItem,
    A7: SequentialItem,
    A8: SequentialItem,
    A9: SequentialItem,
    A10: SequentialItem,
    A11: SequentialItem,
>(data: Seq<u8>) -> Option<((A0::V, A1::V, A2::V, A3::V, A4::V, A5::V, A6::V, A7::V, A8::V, A9::V, A10::V, A11::V), nat)> {
    match tuple11_front::<A0, A1, A2, A3, A4, A5, A6, A7, A8, A9, A10>(data) {
        Some((prefix, taken)) => match A11::decoding_front(data.skip(taken as int)) {
            Some((last, more)) => Some(((prefix.0, prefix.1, prefix.2, prefix.3, prefix.4, prefix.5, prefix.6, prefix.7, prefix.8, prefix.9, prefix.10, last), taken + more)),
            None => None,
        },
        None => None,
    }
}

impl<
    A0: SequentialItem,
    A1: SequentialItem,
    A2: SequentialItem,
    A3: SequentialItem,
    A4: SequentialItem,
    A5: SequentialItem,
    A6: SequentialItem,
    A7: SequentialItem,
    A8: SequentialItem,
    A9: SequentialItem,
    A10: SequentialItem,
    A11: SequentialItem,
> SerializableItem for (A0, A1, A2, A3, A4, A5, A6, A7, A8, A9, A10, A11) {
    open spec fn encoding(value: (A0::V, A1::V, A2::V, A3::V, A4::V, A5::V, A6::V, A7::V, A8::V, A9::V, A10::V, A11::V)) -> Option<Seq<u8>> {
        tuple12_encoding::<A0, A1, A2, A3, A4, A5, A6, A7, A8, A9, A10, A11>(value)
    }

    open spec fn decoding(data: Seq<u8>) -> Option<(A0::V, A1::V, A2::V, A3::V, A4::V, A5::V, A6::V, A7::V, A8::V, A9::V, A10::V, A11::V)> {
        whole_front(tuple12_front::<A0, A1, A2, A3, A4, A5, A6, A7, A8, A9, A10, A11>(data), data.len())
    }

    proof fn lemma_round_trip(value: (A0, A1, A2, A3, A4, A5, A6, A7, A8, A9, A10, A11)) {
        let encoded = tuple12_encoding::<A0, A1, A2, A3, A4, A5, A6, A7, A8, A9, A10, A11>(value@).unwrap();
        <(A0, A1, A2, A3, A4, A5, A6, A7, A8, A9, A10, A11) as SequentialItem>::lemma_front_of_encoding(value, Seq::empty());
        assert(encoded + Seq::<u8>::empty() =~= encoded);
    }

    fn serialize_to_owned(&self) -> (result: Result<Vec<u8>, StdError>) {
        let mut bytes = match self.0.serialize_to_owned() {
            Ok(bytes) => bytes,
            Err(error) => {
                return Err(error);
            },
        };
        let mut next = match self.1.serialize_to_owned() {
            Ok(bytes) => bytes,
            Err(error) => {
                return Err(error);
            },
        };
        bytes.append(&mut next);
        let mut next = match self.2.serialize_to_owned() {
            Ok(bytes) => bytes,
            Err(error) => {
                return Err(error);
            },
        };
        bytes.append(&mut next);
        let mut next = match self.3.serialize_to_owned() {
            Ok(bytes) => bytes,
            Err(error) => {
                return Err(error);
            },
        };
        bytes.append(&mut next);
        let mut next = match self.4.serialize_to_owned() {
            Ok(bytes) => bytes,
            Err(error) => {
                return Err(error);
            },
        };
        bytes.append(&mut next);
        let mut next = match self.5.serialize_to_owned() {
            Ok(bytes) => bytes,
            Err(error) => {
                return Err(error);
            },
        };
        bytes.append(&mut next);
        let mut next = match self.6.serialize_to_owned() {
            Ok(bytes) => bytes,
            Err(error) => {
                return Err(error);
            },
        };
        bytes.append(&mut next);
        let mut next = match self.7.serialize_to_owned() {
            Ok(bytes) => bytes,
            Err(error) => {
                return Err(error);
            },
        };
        bytes.append(&mut next);
        let mut next = match self.8.serialize_to_owned() {
            Ok(bytes) => bytes,
            Err(error) => {
                return Err(error);
            },
        };
        bytes.append(&mut next);
        let mut next = match self.9.serialize_to_owned() {
            Ok(bytes) => bytes,
            Err(error) => {
                return Err(error);
            },
        };
        bytes.append(&mut next);
        let mut next = match self.10.serialize_to_owned() {
            Ok(bytes) => bytes,
            Err(error) => {
                return Err(error);
            },
        };
        bytes.append(&mut next);
        let mut next = match self.11.serialize_to_owned() {
            Ok(bytes) => bytes,
            Err(error) => {
                return Err(error);
            },
        };
        bytes.append(&mut next);
        Ok(bytes)
    }

    fn serialize_as_ref(&self) -> (result: Option<&[u8]>) {
        None
    }

    fn deserialize_to_owned(data: &[u8]) -> (result: Result<Self, StdError>) {
        match <(A0, A1, A2, A3, A4, A5, A6, A7, A8, A9, A10, A11) as SequentialItem>::deserialize_front(data) {
            Ok((value, taken)) => {
                if taken == data.len() {
                    Ok(value)
                } else {
                    Err(StdError::ParseErr)
                }
            },
            Err(error) => Err(error),
        }
    }

    fn deserialize_as_ref(data: &[u8]) -> (result: Option<&Self>) {
        None
    }
}

impl<
    A0: SequentialItem,
    A1: SequentialItem,
    A2: SequentialItem,
    A3: SequentialItem,
    A4: SequentialItem,
    A5: SequentialItem,
    A6: SequentialItem,
    A7: SequentialItem,
    A8: SequentialItem,
    A9: SequentialItem,
    A10: SequentialItem,
    A11: SequentialItem,
> SequentialItem for (A0, A1, A2, A3, A4, A5, A6, A7, A8, A9, A10, A11) {
    open spec fn decoding_front(data: Seq<u8>) -> Option<((A0::V, A1::V, A2::V, A3::V, A4::V, A5::V, A6::V, A7::V, A8::V, A9::V, A10::V, A11::V), nat)> {
        tuple12_front::<A0, A1, A2, A3, A4, A5, A6, A7, A8, A9, A10, A11>(data)
    }

    proof fn lemma_decoding_is_whole_front(data: Seq<u8>) {
    }

    proof fn lemma_front_fits(data: Seq<u8>) {
        <(A0, A1, A2, A3, A4, A5, A6, A7, A8, A9, A10) as SequentialItem>::lemma_front_fits(data);
        match tuple11_front::<A0, A1, A2, A3, A4, A5, A6, A7, A8, A9, A10>(data) {
            Some((prefix, taken)) => {
                A11::lemma_front_fits(data.skip(taken as int));
            },
            None => {},
        }
    }

    proof fn lemma_front_of_encoding(value: (A0, A1, A2, A3, A4, A5, A6, A7, A8, A9, A10, A11), rest: Seq<u8>) {
        let front = tuple11_encoding::<A0, A1, A2, A3, A4, A5, A6, A7, A8, A9, A10>((value@.0, value@.1, value@.2, value@.3, value@.4, value@.5, value@.6, value@.7, value@.8, value@.9, value@.10)).unwrap();
        let last = A11::encoding(value.11@).unwrap();
        let data = front + last + rest;
        assert(data =~= front + (last + rest));
        <(A0, A1, A2, A3, A4, A5, A6, A7, A8, A9, A10) as SequentialItem>::lemma_front_of_encoding((value.0, value.1, value.2, value.3, value.4, value.5, value.6, value.7, value.8, value.9, value.10), last + rest);
        assert(data.skip(front.len() as int) =~= last + rest);
        A11::lemma_front_of_encoding(value.11, rest);
    }

    fn deserialize_front(data: &[u8]) -> (result: Result<(Self, usize), StdError>) {
        let ((part0, part1, part2, part3, part4, part5, part6, part7, part8, part9, part10), taken) = match <(A0, A1, A2, A3, A4, A5, A6, A7, A8, A9, A10) as SequentialItem>::deserialize_front(data) {
            Ok(front) => front,
            Err(error) => {
                return Err(error);
            },
        };
        proof {
            <(A0, A1, A2, A3, A4, A5, A6, A7, A8, A9, A10) as SequentialItem>::lemma_front_fits(data@);
        }
        let rest = slice_subrange(data, taken, data.len());
        assert(rest@ =~= data@.skip(taken as int));
        let (last, more) = match A11::deserialize_front(rest) {
            Ok(front) => front,
            Err(error) => {
                return Err(error);
            },
        };
        proof {
            A11::lemma_front_fits(rest@);
        }
        Ok(((part0, part1, part2, part3, part4, part5, part6, part7, part8, part9, part10, last), taken + more))
    }
}

} // verus!
