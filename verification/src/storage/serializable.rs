//! The serialization capability of the plain types: the integers in
//! little-endian order, the signed ones in two's complement, the unit, byte
//! arrays as they are, and booleans and strings in the length-aware encoding
//! of `borsh`.

use vstd::prelude::*;
use vstd::utf8::{decode_utf8, encode_utf8, valid_utf8};
use crate::bytes::{
    from_twos_complement, le_bytes, le_decode, le_encode, le_value, lemma_le_bytes_len,
    lemma_le_value_bound, lemma_le_value_of_bytes, lemma_pow256_values,
    lemma_twos_complement_round_trip, signed_le_decode, signed_le_encode, twos_complement,
};
use crate::error::StdError;
use super::SerializableItem;

verus! {

impl SerializableItem for u8 {
    open spec fn encoding(value: u8) -> Option<Seq<u8>> {
        Some(le_bytes(value as nat, 1))
    }

    open spec fn decoding(data: Seq<u8>) -> Option<u8> {
        if data.len() == 1 {
            Some(le_value(data) as u8)
        } else {
            None
        }
    }

    proof fn lemma_round_trip(value: u8) {
        lemma_pow256_values();
        lemma_le_bytes_len(value as nat, 1);
        lemma_le_value_of_bytes(value as nat, 1);
    }

    fn serialize_to_owned(&self) -> (result: Result<Vec<u8>, StdError>) {
        Ok(le_encode(*self as u128, 1))
    }

    fn serialize_as_ref(&self) -> (result: Option<&[u8]>) {
        None
    }

    fn deserialize_to_owned(data: &[u8]) -> (result: Result<Self, StdError>) {
        if data.len() != 1 {
            return Err(StdError::ParseErr);
        }
        proof {
            lemma_le_value_bound(data@);
            lemma_pow256_values();
        }
        Ok(le_decode(data) as u8)
    }

    fn deserialize_as_ref(data: &[u8]) -> (result: Option<&Self>) {
        None
    }
}

impl SerializableItem for u16 {
    open spec fn encoding(value: u16) -> Option<Seq<u8>> {
        Some(le_bytes(value as nat, 2))
    }

    open spec fn decoding(data: Seq<u8>) -> Option<u16> {
        if data.len() == 2 {
            Some(le_value(data) as u16)
        } else {
            None
        }
    }

    proof fn lemma_round_trip(value: u16) {
        lemma_pow256_values();
        lemma_le_bytes_len(value as nat, 2);
        lemma_le_value_of_bytes(value as nat, 2);
    }

    fn serialize_to_owned(&self) -> (result: Result<Vec<u8>, StdError>) {
        Ok(le_encode(*self as u128, 2))
    }

    fn serialize_as_ref(&self) -> (result: Option<&[u8]>) {
        None
    }

    fn deserialize_to_owned(data: &[u8]) -> (result: Result<Self, StdError>) {
        if data.len() != 2 {
            return Err(StdError::ParseErr);
        }
        proof {
            lemma_le_value_bound(data@);
            lemma_pow256_values();
        }
        Ok(le_decode(data) as u16)
    }

    fn deserialize_as_ref(data: &[u8]) -> (result: Option<&Self>) {
        None
    }
}

impl SerializableItem for u32 {
    open spec fn encoding(value: u32) -> Option<Seq<u8>> {
        Some(le_bytes(value as nat, 4))
    }

    open spec fn decoding(data: Seq<u8>) -> Option<u32> {
        if data.len() == 4 {
            Some(le_value(data) as u32)
        } else {
            None
        }
    }

    proof fn lemma_round_trip(value: u32) {
        lemma_pow256_values();
        lemma_le_bytes_len(value as nat, 4);
        lemma_le_value_of_bytes(value as nat, 4);
    }

    fn serialize_to_owned(&self) -> (result: Result<Vec<u8>, StdError>) {
        Ok(le_encode(*self as u128, 4))
    }

    fn serialize_as_ref(&self) -> (result: Option<&[u8]>) {
        None
    }

    fn deserialize_to_owned(data: &[u8]) -> (result: Result<Self, StdError>) {
        if data.len() != 4 {
            return Err(StdError::ParseErr);
        }
        proof {
            lemma_le_value_bound(data@);
            lemma_pow256_values();
        }
        Ok(le_decode(data) as u32)
    }

    fn deserialize_as_ref(data: &[u8]) -> (result: Option<&Self>) {
        None
    }
}

impl SerializableItem for u64 {
    open spec fn encoding(value: u64) -> Option<Seq<u8>> {
        Some(le_bytes(value as nat, 8))
    }

    open spec fn decoding(data: Seq<u8>) -> Option<u64> {
        if data.len() == 8 {
            Some(le_value(data) as u64)
        } else {
            None
        }
    }

    proof fn lemma_round_trip(value: u64) {
        lemma_pow256_values();
        lemma_le_bytes_len(value as nat, 8);
        lemma_le_value_of_bytes(value as nat, 8);
    }

    fn serialize_to_owned(&self) -> (result: Result<Vec<u8>, StdError>) {
        Ok(le_encode(*self as u128, 8))
    }

    fn serialize_as_ref(&self) -> (result: Option<&[u8]>) {
        None
    }

    fn deserialize_to_owned(data: &[u8]) -> (result: Result<Self, StdError>) {
        if data.len() != 8 {
            return Err(StdError::ParseErr);
        }
        proof {
            lemma_le_value_bound(data@);
            lemma_pow256_values();
        }
        Ok(le_decode(data) as u64)
    }

    fn deserialize_as_ref(data: &[u8]) -> (result: Option<&Self>) {
        None
    }
}

impl SerializableItem for u128 {
    open spec fn encoding(value: u128) -> Option<Seq<u8>> {
        Some(le_bytes(value as nat, 16))
    }

    open spec fn decoding(data: Seq<u8>) -> Option<u128> {
        if data.len() == 16 {
            Some(le_value(data) as u128)
        } else {
            None
        }
    }

    proof fn lemma_round_trip(value: u128) {
        lemma_pow256_values();
        lemma_le_bytes_len(value as nat, 16);
        lemma_le_value_of_bytes(value as nat, 16);
    }

    fn serialize_to_owned(&self) -> (result: Result<Vec<u8>, StdError>) {
        Ok(le_encode(*self, 16))
    }

    fn serialize_as_ref(&self) -> (result: Option<&[u8]>) {
        None
    }

    fn deserialize_to_owned(data: &[u8]) -> (result: Result<Self, StdError>) {
        if data.len() != 16 {
            return Err(StdError::ParseErr);
        }
        Ok(le_decode(data))
    }

    fn deserialize_as_ref(data: &[u8]) -> (result: Option<&Self>) {
        None
    }
}

impl SerializableItem for () {
    open spec fn encoding(value: ()) -> Option<Seq<u8>> {
        Some(Seq::empty())
    }

    open spec fn decoding(data: Seq<u8>) -> Option<()> {
        if data.len() == 0 {
            Some(())
        } else {
            None
        }
    }

    proof fn lemma_round_trip(value: ()) {
    }

    fn serialize_to_owned(&self) -> (result: Result<Vec<u8>, StdError>) {
        Ok(Vec::new())
    }

    fn serialize_as_ref(&self) -> (result: Option<&[u8]>) {
        None
    }

    fn deserialize_to_owned(data: &[u8]) -> (result: Result<Self, StdError>) {
        if data.len() != 0 {
            return Err(StdError::ParseErr);
        }
        Ok(())
    }

    fn deserialize_as_ref(data: &[u8]) -> (result: Option<&Self>) {
        None
    }
}

/// `<&[u8; N]>::try_from(&[u8])` of std: the slice seen as an array, where
/// it has exactly `N` bytes.
#[verifier::external_body]
fn slice_as_array<const N: usize>(data: &[u8]) -> (result: Option<&[u8; N]>)
    ensures
        result.is_some() == (data@.len() == N),
        result matches Some(array) ==> array@ == data@,
{
    <&[u8; N]>::try_from(data).ok()
}

impl<const N: usize> SerializableItem for [u8; N] {
    open spec fn encoding(value: Seq<u8>) -> Option<Seq<u8>> {
        Some(value)
    }

    open spec fn decoding(data: Seq<u8>) -> Option<Seq<u8>> {
        if data.len() == N {
            Some(data)
        } else {
            None
        }
    }

    proof fn lemma_round_trip(value: [u8; N]) {
    }

    fn serialize_to_owned(&self) -> (result: Result<Vec<u8>, StdError>) {
        let mut bytes: Vec<u8> = Vec::new();
        bytes.extend_from_slice(self.as_slice());
        assert(bytes@ =~= self@);
        Ok(bytes)
    }

    /// The bytes of the array as they lie in the array itself: an array
    /// always hands them out.
    fn serialize_as_ref(&self) -> (result: Option<&[u8]>)
        ensures
            result.is_some(),
            result matches Some(bytes) ==> bytes@ == self@,
    {
        Some(self.as_slice())
    }

    fn deserialize_to_owned(data: &[u8]) -> (result: Result<Self, StdError>) {
        match slice_as_array::<N>(data) {
            Some(array) => Ok(*array),
            None => Err(StdError::ParseErr),
        }
    }

    /// `data` seen as an array, without a copy: `Some` exactly where `data`
    /// has `N` bytes, and then the array holds those bytes.
    fn deserialize_as_ref(data: &[u8]) -> (result: Option<&Self>)
        ensures
            result.is_some() == (data@.len() == N),
            result matches Some(array) ==> array@ == data@,
    {
        slice_as_array::<N>(data)
    }
}

/// The one byte that stands for a boolean.
pub open spec fn bool_byte(value: bool) -> u8 {
    if value {
        1u8
    } else {
        0u8
    }
}

/// `borsh::to_vec` on a `bool`: one byte, `1` for `true` and `0` for
/// `false`. Writing into a vector does not fail.
#[verifier::external_body]
fn borsh_bool_to_vec(value: bool) -> (result: Option<Vec<u8>>)
    ensures
        result.is_some(),
        result matches Some(bytes) ==> bytes@ == seq![bool_byte(value)],
{
    borsh::to_vec(&value).ok()
}

/// `borsh::from_slice` to a `bool`: the byte `0` is `false` and the byte `1`
/// is `true`; any other byte, and any other number of bytes, is refused.
#[verifier::external_body]
fn borsh_bool_from_slice(data: &[u8]) -> (result: Option<bool>)
    ensures
        result.is_some() == (data@.len() == 1 && data@[0] <= 1),
        result matches Some(value) ==> data@[0] == bool_byte(value),
{
    borsh::from_slice::<bool>(data).ok()
}

impl SerializableItem for bool {
    open spec fn encoding(value: bool) -> Option<Seq<u8>> {
        Some(seq![bool_byte(value)])
    }

    open spec fn decoding(data: Seq<u8>) -> Option<bool> {
        if data.len() == 1 && data[0] <= 1 {
            Some(data[0] == 1)
        } else {
            None
        }
    }

    proof fn lemma_round_trip(value: bool) {
    }

    fn serialize_to_owned(&self) -> (result: Result<Vec<u8>, StdError>) {
        match borsh_bool_to_vec(*self) {
            Some(bytes) => Ok(bytes),
            None => Err(StdError::SerializeErr),
        }
    }

    fn serialize_as_ref(&self) -> (result: Option<&[u8]>) {
        None
    }

    fn deserialize_to_owned(data: &[u8]) -> (result: Result<Self, StdError>) {
        match borsh_bool_from_slice(data) {
            Some(value) => Ok(value),
            None => Err(StdError::ParseErr),
        }
    }

    fn deserialize_as_ref(data: &[u8]) -> (result: Option<&Self>) {
        None
    }
}

/// The encoding of a string: the number of its UTF-8 bytes, in four
/// little-endian bytes, and then those bytes.
pub open spec fn string_encoding(value: Seq<char>) -> Option<Seq<u8>> {
    if encode_utf8(value).len() <= u32::MAX {
        Some(le_bytes(encode_utf8(value).len(), 4) + encode_utf8(value))
    } else {
        None
    }
}

/// `data` is the encoding of a string: a length in four little-endian
/// bytes, followed by exactly that many bytes, which are valid UTF-8.
pub open spec fn is_string_encoding(data: Seq<u8>) -> bool {
    &&& data.len() >= 4
    &&& le_value(data.subrange(0, 4)) == data.len() - 4
    &&& valid_utf8(data.skip(4))
}

/// `borsh::to_vec` on a `String`: the length of its UTF-8 bytes as four
/// little-endian bytes, then the bytes. A string of more bytes than a `u32`
/// counts is refused.
#[verifier::external_body]
fn borsh_string_to_vec(value: &String) -> (result: Option<Vec<u8>>)
    ensures
        result.is_some() == string_encoding(value@).is_some(),
        result matches Some(bytes) ==> Some(bytes@) == string_encoding(value@),
{
    borsh::to_vec(value).ok()
}

/// `borsh::from_slice` to a `String`: reads the length, then that many
/// bytes as UTF-8, and refuses data that is too short for its length, has
/// bytes left over, or is not valid UTF-8.
#[verifier::external_body]
fn borsh_string_from_slice(data: &[u8]) -> (result: Option<String>)
    ensures
        result.is_some() == is_string_encoding(data@),
        result matches Some(value) ==> value@ == decode_utf8(data@.skip(4)),
{
    borsh::from_slice::<String>(data).ok()
}

impl SerializableItem for String {
    open spec fn encoding(value: Seq<char>) -> Option<Seq<u8>> {
        string_encoding(value)
    }

    open spec fn decoding(data: Seq<u8>) -> Option<Seq<char>> {
        if is_string_encoding(data) {
            Some(decode_utf8(data.skip(4)))
        } else {
            None
        }
    }

    proof fn lemma_round_trip(value: String) {
        let text = encode_utf8(value@);
        let length = le_bytes(text.len(), 4);
        let data = length + text;
        lemma_pow256_values();
        lemma_le_bytes_len(text.len(), 4);
        lemma_le_value_of_bytes(text.len(), 4);
        assert(data.subrange(0, 4) =~= length);
        assert(data.skip(4) =~= text);
        vstd::utf8::encode_utf8_valid_utf8(value@);
        vstd::utf8::encode_utf8_decode_utf8(value@);
    }

    fn serialize_to_owned(&self) -> (result: Result<Vec<u8>, StdError>) {
        match borsh_string_to_vec(self) {
            Some(bytes) => Ok(bytes),
            None => Err(StdError::SerializeErr),
        }
    }

    fn serialize_as_ref(&self) -> (result: Option<&[u8]>) {
        None
    }

    fn deserialize_to_owned(data: &[u8]) -> (result: Result<Self, StdError>) {
        match borsh_string_from_slice(data) {
            Some(value) => Ok(value),
            None => Err(StdError::ParseErr),
        }
    }

    fn deserialize_as_ref(data: &[u8]) -> (result: Option<&Self>) {
        None
    }
}

impl SerializableItem for i8 {
    open spec fn encoding(value: i8) -> Option<Seq<u8>> {
        Some(le_bytes(twos_complement(value as int, 1), 1))
    }

    open spec fn decoding(data: Seq<u8>) -> Option<i8> {
        if data.len() == 1 {
            Some(from_twos_complement(le_value(data), 1) as i8)
        } else {
            None
        }
    }

    proof fn lemma_round_trip(value: i8) {
        lemma_pow256_values();
        lemma_twos_complement_round_trip(value as int, 1);
        lemma_le_bytes_len(twos_complement(value as int, 1), 1);
        lemma_le_value_of_bytes(twos_complement(value as int, 1), 1);
    }

    fn serialize_to_owned(&self) -> (result: Result<Vec<u8>, StdError>) {
        proof {
            lemma_pow256_values();
        }
        Ok(signed_le_encode(*self as i128, 1))
    }

    fn serialize_as_ref(&self) -> (result: Option<&[u8]>) {
        None
    }

    fn deserialize_to_owned(data: &[u8]) -> (result: Result<Self, StdError>) {
        if data.len() != 1 {
            return Err(StdError::ParseErr);
        }
        proof {
            lemma_pow256_values();
        }
        Ok(signed_le_decode(data) as i8)
    }

    fn deserialize_as_ref(data: &[u8]) -> (result: Option<&Self>) {
        None
    }
}

impl SerializableItem for i16 {
    open spec fn encoding(value: i16) -> Option<Seq<u8>> {
        Some(le_bytes(twos_complement(value as int, 2), 2))
    }

    open spec fn decoding(data: Seq<u8>) -> Option<i16> {
        if data.len() == 2 {
            Some(from_twos_complement(le_value(data), 2) as i16)
        } else {
            None
        }
    }

    proof fn lemma_round_trip(value: i16) {
        lemma_pow256_values();
        lemma_twos_complement_round_trip(value as int, 2);
        lemma_le_bytes_len(twos_complement(value as int, 2), 2);
        lemma_le_value_of_bytes(twos_complement(value as int, 2), 2);
    }

    fn serialize_to_owned(&self) -> (result: Result<Vec<u8>, StdError>) {
        proof {
            lemma_pow256_values();
        }
        Ok(signed_le_encode(*self as i128, 2))
    }

    fn serialize_as_ref(&self) -> (result: Option<&[u8]>) {
        None
    }

    fn deserialize_to_owned(data: &[u8]) -> (result: Result<Self, StdError>) {
        if data.len() != 2 {
            return Err(StdError::ParseErr);
        }
        proof {
            lemma_pow256_values();
        }
        Ok(signed_le_decode(data) as i16)
    }

    fn deserialize_as_ref(data: &[u8]) -> (result: Option<&Self>) {
        None
    }
}

impl SerializableItem for i32 {
    open spec fn encoding(value: i32) -> Option<Seq<u8>> {
        Some(le_bytes(twos_complement(value as int, 4), 4))
    }

    open spec fn decoding(data: Seq<u8>) -> Option<i32> {
        if data.len() == 4 {
            Some(from_twos_complement(le_value(data), 4) as i32)
        } else {
            None
        }
    }

    proof fn lemma_round_trip(value: i32) {
        lemma_pow256_values();
        lemma_twos_complement_round_trip(value as int, 4);
        lemma_le_bytes_len(twos_complement(value as int, 4), 4);
        lemma_le_value_of_bytes(twos_complement(value as int, 4), 4);
    }

    fn serialize_to_owned(&self) -> (result: Result<Vec<u8>, StdError>) {
        proof {
            lemma_pow256_values();
        }
        Ok(signed_le_encode(*self as i128, 4))
    }

    fn serialize_as_ref(&self) -> (result: Option<&[u8]>) {
        None
    }

    fn deserialize_to_owned(data: &[u8]) -> (result: Result<Self, StdError>) {
        if data.len() != 4 {
            return Err(StdError::ParseErr);
        }
        proof {
            lemma_pow256_values();
        }
        Ok(signed_le_decode(data) as i32)
    }

    fn deserialize_as_ref(data: &[u8]) -> (result: Option<&Self>) {
        None
    }
}

impl SerializableItem for i64 {
    open spec fn encoding(value: i64) -> Option<Seq<u8>> {
        Some(le_bytes(twos_complement(value as int, 8), 8))
    }

    open spec fn decoding(data: Seq<u8>) -> Option<i64> {
        if data.len() == 8 {
            Some(from_twos_complement(le_value(data), 8) as i64)
        } else {
            None
        }
    }

    proof fn lemma_round_trip(value: i64) {
        lemma_pow256_values();
        lemma_twos_complement_round_trip(value as int, 8);
        lemma_le_bytes_len(twos_complement(value as int, 8), 8);
        lemma_le_value_of_bytes(twos_complement(value as int, 8), 8);
    }

    fn serialize_to_owned(&self) -> (result: Result<Vec<u8>, StdError>) {
        proof {
            lemma_pow256_values();
        }
        Ok(signed_le_encode(*self as i128, 8))
    }

    fn serialize_as_ref(&self) -> (result: Option<&[u8]>) {
        None
    }

    fn deserialize_to_owned(data: &[u8]) -> (result: Result<Self, StdError>) {
        if data.len() != 8 {
            return Err(StdError::ParseErr);
        }
        proof {
            lemma_pow256_values();
        }
        Ok(signed_le_decode(data) as i64)
    }

    fn deserialize_as_ref(data: &[u8]) -> (result: Option<&Self>) {
        None
    }
}

impl SerializableItem for i128 {
    open spec fn encoding(value: i128) -> Option<Seq<u8>> {
        Some(le_bytes(twos_complement(value as int, 16), 16))
    }

    open spec fn decoding(data: Seq<u8>) -> Option<i128> {
        if data.len() == 16 {
            Some(from_twos_complement(le_value(data), 16) as i128)
        } else {
            None
        }
    }

    proof fn lemma_round_trip(value: i128) {
        lemma_pow256_values();
        lemma_twos_complement_round_trip(value as int, 16);
        lemma_le_bytes_len(twos_complement(value as int, 16), 16);
        lemma_le_value_of_bytes(twos_complement(value as int, 16), 16);
    }

    fn serialize_to_owned(&self) -> (result: Result<Vec<u8>, StdError>) {
        proof {
            lemma_pow256_values();
        }
        Ok(signed_le_encode(*self as i128, 16))
    }

    fn serialize_as_ref(&self) -> (result: Option<&[u8]>) {
        None
    }

    fn deserialize_to_owned(data: &[u8]) -> (result: Result<Self, StdError>) {
        if data.len() != 16 {
            return Err(StdError::ParseErr);
        }
        proof {
            lemma_pow256_values();
        }
        Ok(signed_le_decode(data) as i128)
    }

    fn deserialize_as_ref(data: &[u8]) -> (result: Option<&Self>) {
        None
    }
}

} // verus!
