//! Helpers on raw byte strings that the collections and the address types share.

use vstd::prelude::*;
use vstd::slice::slice_subrange;
use vstd::string::StringExecFns;
use vstd::utf8::{decode_utf8, encode_utf8, valid_utf8};
use crate::bytes::{lex_lt, lex_le, lemma_lex_common_prefix, lemma_lex_extension};
use crate::error::StdError;

verus! {

/// A byte string of `n` copies of `b`.
pub open spec fn repeat_byte(b: u8, n: nat) -> Seq<u8> {
    Seq::new(n, |i: int| b)
}

/// Every byte of `s` is `0xFF`.
pub open spec fn all_max(s: Seq<u8>) -> bool {
    forall|i: int| 0 <= i < s.len() ==> s[i] == 0xFFu8
}

/// The upper bound of a prefix scan: `bytes` with its last byte incremented,
/// the carry running to the left and each byte that overflows left at zero.
/// Where every byte overflows (or there is none), the bytes are kept and one
/// zero byte is appended.
pub open spec fn lexicographic_next_spec(bytes: Seq<u8>) -> Seq<u8>
    decreases bytes.len(),
{
    if all_max(bytes) {
        bytes.push(0u8)
    } else if bytes.last() != 0xFFu8 {
        bytes.drop_last().push((bytes.last() + 1) as u8)
    } else {
        lexicographic_next_spec(bytes.drop_last()).push(0u8)
    }
}

/// With `i` the place of the last byte that is not `0xFF`, the bound is the
/// bytes before `i`, then that byte plus one, then zeros.
proof fn lemma_next_at_carry_stop(bytes: Seq<u8>, i: int)
    requires
        0 <= i < bytes.len(),
        bytes[i] != 0xFFu8,
        all_max(bytes.skip(i + 1)),
    ensures
        lexicographic_next_spec(bytes) == bytes.subrange(0, i).push((bytes[i] + 1) as u8)
            + repeat_byte(0u8, (bytes.len() - i - 1) as nat),
    decreases bytes.len() - i,
{
    let expected = bytes.subrange(0, i).push((bytes[i] + 1) as u8) + repeat_byte(
        0u8,
        (bytes.len() - i - 1) as nat,
    );
    assert(!all_max(bytes));
    if i == bytes.len() - 1 {
        assert(bytes.drop_last() =~= bytes.subrange(0, i));
        assert(expected =~= bytes.subrange(0, i).push((bytes[i] + 1) as u8));
    } else {
        assert(bytes.last() == bytes.skip(i + 1)[bytes.len() - i - 2]);
        let shorter = bytes.drop_last();
        let short_tail = shorter.skip(i + 1);
        assert(all_max(short_tail)) by {
            assert forall|j: int| 0 <= j < short_tail.len() implies #[trigger] short_tail[j]
                == 0xFFu8 by {
                assert(short_tail[j] == bytes.skip(i + 1)[j]);
            }
        }
        lemma_next_at_carry_stop(shorter, i);
        assert(shorter.subrange(0, i) =~= bytes.subrange(0, i));
        assert(expected =~= (shorter.subrange(0, i).push((shorter[i] + 1) as u8) + repeat_byte(
            0u8,
            (shorter.len() - i - 1) as nat,
        )).push(0u8));
    }
}

/// Every key that starts with `prefix` lies in the half-open range from
/// `prefix` to `lexicographic_next_spec(prefix)`: a scan between the two
/// misses no key of the namespace. This needs a prefix with a byte other than
/// `0xFF` in it: below `[0xFF, 0x00]` lies `[0xFF]` and no other key that
/// starts with it.
pub proof fn lemma_lexicographic_next_covers_prefix(prefix: Seq<u8>, rest: Seq<u8>)
    requires
        !all_max(prefix),
    ensures
        lex_le(prefix, prefix + rest),
        lex_lt(prefix + rest, lexicographic_next_spec(prefix)),
    decreases prefix.len(),
{
    lemma_lex_extension(prefix, rest);
    let next = lexicographic_next_spec(prefix);
    if prefix.last() != 0xFFu8 {
        let head = prefix.drop_last();
        let bumped = (prefix.last() + 1) as u8;
        assert(prefix + rest =~= head + (seq![prefix.last()] + rest));
        assert(next =~= head + seq![bumped]);
        lemma_lex_common_prefix(head, seq![prefix.last()] + rest, seq![bumped]);
    } else {
        let head = prefix.drop_last();
        assert(!all_max(head)) by {
            if all_max(head) {
                assert forall|i: int| 0 <= i < prefix.len() implies prefix[i] == 0xFFu8 by {
                    if i < head.len() {
                        assert(prefix[i] == head[i]);
                    }
                }
            }
        }
        let tail = seq![0xFFu8] + rest;
        assert(prefix + rest =~= head + tail);
        lemma_lexicographic_next_covers_prefix(head, tail);
        lemma_lex_extension(lexicographic_next_spec(head), seq![0u8]);
        assert(lexicographic_next_spec(head) + seq![0u8] =~= next);
        crate::bytes::lemma_lex_transitive(head + tail, lexicographic_next_spec(head), next);
    }
}

/// The exclusive upper bound of a scan over the keys that start with `bytes`.
pub fn lexicographic_next(bytes: &[u8]) -> (result: Vec<u8>)
    ensures
        result@ == lexicographic_next_spec(bytes@),
{
    let mut result: Vec<u8> = Vec::new();
    result.extend_from_slice(bytes);
    assert(result@ =~= bytes@);
    let mut add = true;
    let mut i: usize = result.len();
    while i > 0 && add
        invariant
            i <= bytes.len(),
            result.len() == bytes.len(),
            add ==> result@.subrange(0, i as int) == bytes@.subrange(0, i as int),
            add ==> all_max(bytes@.skip(i as int)),
            add ==> result@.skip(i as int) == repeat_byte(0u8, (bytes.len() - i) as nat),
            !add ==> result@ == lexicographic_next_spec(bytes@),
        decreases i + (if add { 1int } else { 0int }),
    {
        let ghost before = result@;
        i -= 1;
        let val = result[i];
        proof {
            assert(before.subrange(0, i + 1)[i as int] == bytes@.subrange(0, i + 1)[i as int]);
            assert(before.subrange(0, i as int) =~= before.subrange(0, i + 1).subrange(0, i as int));
            assert(bytes@.subrange(0, i as int) =~= bytes@.subrange(0, i + 1).subrange(
                0,
                i as int,
            ));
            assert forall|j: int| i < j < bytes.len() implies before[j] == 0u8 by {
                assert(before[j] == before.skip(i + 1)[j - i - 1]);
            }
        }
        if val == 0xFF {
            result.set(i, 0);
            proof {
                assert(result@.subrange(0, i as int) =~= before.subrange(0, i as int));
                assert(result@.skip(i as int) =~= repeat_byte(0u8, (bytes.len() - i) as nat));
                let tail = bytes@.skip(i as int);
                assert forall|j: int| 0 <= j < tail.len() implies #[trigger] tail[j]
                    == 0xFFu8 by {
                    if j > 0 {
                        assert(tail[j] == bytes@.skip(i + 1)[j - 1]);
                    }
                }
            }
        } else {
            result.set(i, val + 1);
            add = false;
            proof {
                lemma_next_at_carry_stop(bytes@, i as int);
                assert(result@ =~= bytes@.subrange(0, i as int).push((val + 1) as u8)
                    + repeat_byte(0u8, (bytes.len() - i - 1) as nat)) by {
                    assert forall|j: int| 0 <= j < i implies result@[j] == bytes@[j] by {
                        assert(before.subrange(0, i as int)[j] == bytes@.subrange(0, i as int)[j]);
                    }
                }
            }
        }
    }
    if add {
        assert(bytes@.skip(0) =~= bytes@);
        let mut j: usize = 0;
        while j < result.len()
            invariant
                j <= result.len(),
                result.len() == bytes.len(),
                all_max(bytes@),
                result@.subrange(0, j as int) == bytes@.subrange(0, j as int),
            decreases result.len() - j,
        {
            result.set(j, 0xFF);
            assert(result@.subrange(0, j + 1) =~= bytes@.subrange(0, j + 1));
            j += 1;
        }
        assert(result@ =~= bytes@);
        result.push(0);
    }
    result
}

/// The value of a hexadecimal digit, in either case.
pub open spec fn hex_digit_value(digit: u8) -> Option<u8> {
    if 0x30 <= digit <= 0x39 {
        Some((digit - 0x30) as u8)
    } else if 0x61 <= digit <= 0x66 {
        Some((digit - 0x61 + 10) as u8)
    } else if 0x41 <= digit <= 0x46 {
        Some((digit - 0x41 + 10) as u8)
    } else {
        None
    }
}

/// The bytes that hexadecimal text stands for, two digits to a byte, or
/// `None` for text with an odd number of bytes or a byte that is no digit.
pub open spec fn hex_decoded(text: Seq<u8>) -> Option<Seq<u8>> {
    if text.len() % 2 == 0 && (forall|i: int|
        0 <= i < text.len() ==> (#[trigger] hex_digit_value(text[i])).is_some()) {
        Some(
            Seq::new(
                text.len() / 2,
                |i: int|
                    (16 * hex_digit_value(text[2 * i]).unwrap() + hex_digit_value(
                        text[2 * i + 1],
                    ).unwrap()) as u8,
            ),
        )
    } else {
        None
    }
}

/// The lower-case hexadecimal digit of a value below sixteen.
pub open spec fn hex_digit(value: u8) -> char {
    if value < 10 {
        (0x30 + value) as char
    } else {
        (0x61 + value - 10) as char
    }
}

/// The hexadecimal text of bytes: for each byte its upper and then its
/// lower half, as lower-case digits.
pub open spec fn hex_encoded(bytes: Seq<u8>) -> Seq<char> {
    Seq::new(
        2 * bytes.len(),
        |i: int|
            if i % 2 == 0 {
                hex_digit(bytes[i / 2] / 16)
            } else {
                hex_digit(bytes[i / 2] % 16)
            },
    )
}

/// `<[u8; 20] as hex::FromHex>::from_hex`: the twenty bytes that forty
/// hexadecimal digits stand for; `None` for any other text.
#[verifier::external_body]
fn hex_decode_20(text: &[u8]) -> (bytes: Option<[u8; 20]>)
    ensures
        bytes.is_some() == (hex_decoded(text@).is_some() && text@.len() == 40),
        bytes matches Some(array) ==> Some(array@) == hex_decoded(text@),
{
    <[u8; 20] as hex::FromHex>::from_hex(text).ok()
}

/// `hex::encode`: the hexadecimal text of the bytes, in lower case.
#[verifier::external_body]
fn hex_encode(bytes: &[u8]) -> (text: String)
    ensures
        text@ == hex_encoded(bytes@),
{
    hex::encode(bytes)
}

/// The Keccak-256 hash of bytes: thirty-two bytes.
pub uninterp spec fn keccak256(data: Seq<u8>) -> Seq<u8>;

/// `tiny_keccak::Keccak::v256`, fed `data` once and finalized: the
/// Keccak-256 hash of `data`.
#[verifier::external_body]
fn keccak256_hash(data: &[u8]) -> (hash: [u8; 32])
    ensures
        hash@ == keccak256(data@),
{
    let mut hash = [0u8; 32];
    let mut hasher = tiny_keccak::Keccak::v256();
    tiny_keccak::Hasher::update(&mut hasher, data);
    tiny_keccak::Hasher::finalize(hasher, &mut hash);
    hash
}

/// `String::from_utf8` of std: the text that the bytes encode, where they
/// are valid UTF-8.
#[verifier::external_body]
fn string_from_utf8(bytes: Vec<u8>) -> (text: Option<String>)
    ensures
        text.is_some() == valid_utf8(bytes@),
        text matches Some(t) ==> t@ == decode_utf8(bytes@),
{
    String::from_utf8(bytes).ok()
}

/// `text` is `0x` followed by anything.
pub open spec fn has_hex_prefix(text: Seq<u8>) -> bool {
    text.len() >= 2 && text[0] == 0x30u8 && text[1] == 0x78u8
}

/// The twenty bytes of an Ethereum address in text: `0x` and then forty
/// hexadecimal digits in either case.
pub open spec fn ethereum_address_bytes(text: Seq<u8>) -> Option<Seq<u8>> {
    if has_hex_prefix(text) && text.len() == 42 {
        hex_decoded(text.skip(2))
    } else {
        None
    }
}

/// Whether `text` is `0x` followed by anything.
fn starts_with_hex_prefix(text: &[u8]) -> (prefixed: bool)
    ensures
        prefixed == has_hex_prefix(text@),
{
    text.len() >= 2 && text[0] == 0x30 && text[1] == 0x78
}

/// Parses an Ethereum address, whatever the case of its digits.
pub fn parse_ethereum_address(addr_str: &str) -> (result: Result<[u8; 20], StdError>)
    ensures
        match result {
            Ok(bytes) => ethereum_address_bytes(encode_utf8(addr_str@)) == Some(bytes@),
            Err(error) => ethereum_address_bytes(encode_utf8(addr_str@)).is_none() && error
                == StdError::ParseErr,
        },
{
    let text = addr_str.as_bytes();
    if !starts_with_hex_prefix(text) {
        return Err(StdError::ParseErr);
    }
    let digits = slice_subrange(text, 2, text.len());
    assert(digits@ =~= text@.skip(2));
    match hex_decode_20(digits) {
        Some(bytes) => Ok(bytes),
        None => Err(StdError::ParseErr),
    }
}

/// The text of the Ethereum address in the last twenty of the bytes: `0x`
/// and then forty hexadecimal digits in lower case. Fewer than twenty
/// bytes are refused.
pub fn bytes_to_ethereum_address(addr_bytes: &[u8]) -> (result: Result<String, StdError>)
    ensures
        match result {
            Ok(text) => addr_bytes@.len() >= 20 && text@ == "0x"@ + hex_encoded(
                addr_bytes@.skip(addr_bytes@.len() - 20),
            ),
            Err(error) => addr_bytes@.len() < 20 && error == StdError::SerializeErr,
        },
{
    if addr_bytes.len() < 20 {
        return Err(StdError::SerializeErr);
    }
    let last = slice_subrange(addr_bytes, addr_bytes.len() - 20, addr_bytes.len());
    assert(last@ =~= addr_bytes@.skip(addr_bytes@.len() - 20));
    let unprefixed_result = hex_encode(last);
    let mut result = "0x".to_owned();
    result.append(unprefixed_result.as_str());
    Ok(result)
}

/// An ASCII letter in lower case; any other byte as it is.
pub open spec fn ascii_lower(byte: u8) -> u8 {
    if 0x41 <= byte <= 0x5a {
        (byte + 32) as u8
    } else {
        byte
    }
}

/// An ASCII letter in upper case; any other byte as it is.
pub open spec fn ascii_upper(byte: u8) -> u8 {
    if 0x61 <= byte <= 0x7a {
        (byte - 32) as u8
    } else {
        byte
    }
}

/// Every byte is ASCII.
pub open spec fn all_ascii(bytes: Seq<u8>) -> bool {
    forall|i: int| 0 <= i < bytes.len() ==> bytes[i] < 0x80u8
}

/// The digits in lower case.
pub open spec fn lower_cased(digits: Seq<u8>) -> Seq<u8> {
    Seq::new(digits.len(), |i: int| ascii_lower(digits[i]))
}

/// Whether the digit at `index` is written in upper case, given the hash of
/// the digits: the even digits go by the whole byte of the hash at half
/// their index, which must exceed `0x70`; the odd digits go by its lower
/// half, which must exceed `7`.
pub open spec fn is_upper_by_hash(hash: Seq<u8>, index: int) -> bool {
    index / 2 < hash.len() && (if index % 2 == 0 {
        hash[index / 2] > 0x70u8
    } else {
        hash[index / 2] & 0x0fu8 > 0x07u8
    })
}

/// The digits in the case that the hash gives each of them.
pub open spec fn checksum_cased(digits: Seq<u8>, hash: Seq<u8>) -> Seq<u8> {
    Seq::new(
        digits.len(),
        |i: int|
            if is_upper_by_hash(hash, i) {
                ascii_upper(digits[i])
            } else {
                digits[i]
            },
    )
}

/// Puts each of the digits in the case that `hash` gives it.
pub fn apply_checksum_case(digits: &[u8], hash: &[u8]) -> (cased: Vec<u8>)
    ensures
        cased@ == checksum_cased(digits@, hash@),
{
    let mut cased: Vec<u8> = Vec::new();
    let mut i: usize = 0;
    while i < digits.len()
        invariant
            i <= digits.len(),
            cased@ == checksum_cased(digits@, hash@).subrange(0, i as int),
        decreases digits.len() - i,
    {
        let digit = digits[i];
        let upper = if i / 2 < hash.len() {
            let hash_byte = hash[i / 2];
            if i % 2 == 0 {
                hash_byte > 0x70
            } else {
                hash_byte & 0x0f > 0x07
            }
        } else {
            false
        };
        let byte = if upper && 0x61 <= digit && digit <= 0x7a {
            digit - 32
        } else {
            digit
        };
        cased.push(byte);
        assert(cased@ =~= checksum_cased(digits@, hash@).subrange(0, i + 1));
        i += 1;
    }
    assert(cased@ =~= checksum_cased(digits@, hash@));
    cased
}

/// The bytes in lower case.
fn to_lower_case(digits: &[u8]) -> (lower: Vec<u8>)
    ensures
        lower@ == lower_cased(digits@),
{
    let mut lower: Vec<u8> = Vec::new();
    let mut i: usize = 0;
    while i < digits.len()
        invariant
            i <= digits.len(),
            lower@ == lower_cased(digits@).subrange(0, i as int),
        decreases digits.len() - i,
    {
        let digit = digits[i];
        let byte = if 0x41 <= digit && digit <= 0x5a {
            digit + 32
        } else {
            digit
        };
        lower.push(byte);
        assert(lower@ =~= lower_cased(digits@).subrange(0, i + 1));
        i += 1;
    }
    assert(lower@ =~= lower_cased(digits@));
    lower
}

/// Whether every byte is ASCII.
fn is_all_ascii(bytes: &[u8]) -> (ascii: bool)
    ensures
        ascii == all_ascii(bytes@),
{
    let mut i: usize = 0;
    while i < bytes.len()
        invariant
            i <= bytes.len(),
            forall|j: int| 0 <= j < i ==> bytes@[j] < 0x80u8,
        decreases bytes.len() - i,
    {
        if bytes[i] >= 0x80 {
            return false;
        }
        i += 1;
    }
    true
}

/// An address can be given its checksum case: it is `0x` followed by forty
/// bytes, which are ASCII.
pub open spec fn can_checksumify(text: Seq<u8>) -> bool {
    has_hex_prefix(text) && text.len() == 42 && all_ascii(text.skip(2))
}

/// The bytes of the address in checksum case, given the hash of its
/// digits in lower case.
pub open spec fn checksumified(text: Seq<u8>, hash: Seq<u8>) -> Seq<u8> {
    seq![0x30u8, 0x78u8] + checksum_cased(lower_cased(text.skip(2)), hash)
}

/// ASCII bytes are valid UTF-8.
proof fn lemma_ascii_is_utf8(bytes: Seq<u8>)
    requires
        all_ascii(bytes),
    ensures
        valid_utf8(bytes),
{
    assert(vstd::utf8::partial_valid_utf8(bytes, 0)) by {
        assert(bytes.subrange(0, 0) =~= Seq::<u8>::empty());
    }
    assert forall|i: int| 0 <= 0 <= i < bytes.len() <= bytes.len() implies #[trigger]
        vstd::utf8::is_leading_byte_width_1(bytes[i]) by {}
    vstd::utf8::partial_valid_utf8_extend_ascii_block(bytes, 0, bytes.len() as int);
    assert(bytes.subrange(0, bytes.len() as int) =~= bytes);
}

/// The address with its forty digits in checksum case: in lower case but
/// for those that the Keccak-256 hash of the lower-case digits puts in
/// upper case. An address that is not `0x` and forty ASCII bytes is refused.
pub fn checksumify_ethereum_address(addr_str: &str) -> (result: Result<String, StdError>)
    ensures
        match result {
            Ok(text) => can_checksumify(encode_utf8(addr_str@)) && text@ == decode_utf8(
                checksumified(
                    encode_utf8(addr_str@),
                    keccak256(lower_cased(encode_utf8(addr_str@).skip(2))),
                ),
            ),
            Err(error) => !can_checksumify(encode_utf8(addr_str@)) && error == StdError::GenericErr,
        },
{
    let text = addr_str.as_bytes();
    if !starts_with_hex_prefix(text) {
        return Err(StdError::GenericErr);
    }
    let addr_hex = slice_subrange(text, 2, text.len());
    assert(addr_hex@ =~= text@.skip(2));
    if addr_hex.len() != 40 {
        return Err(StdError::GenericErr);
    }
    if !is_all_ascii(addr_hex) {
        return Err(StdError::GenericErr);
    }
    let lower = to_lower_case(addr_hex);
    let hash = keccak256_hash(lower.as_slice());
    let cased = apply_checksum_case(lower.as_slice(), hash.as_slice());
    let mut bytes: Vec<u8> = Vec::new();
    bytes.push(0x30);
    bytes.push(0x78);
    let mut cased = cased;
    bytes.append(&mut cased);
    proof {
        assert(bytes@ =~= checksumified(text@, hash@));
        assert(all_ascii(bytes@)) by {
            assert forall|i: int| 0 <= i < bytes@.len() implies bytes@[i] < 0x80u8 by {
                if i >= 2 {
                    assert(bytes@[i] == checksum_cased(lower@, hash@)[i - 2]);
                    assert(lower@[i - 2] == ascii_lower(addr_hex@[i - 2]));
                }
            }
        }
        lemma_ascii_is_utf8(bytes@);
    }
    match string_from_utf8(bytes) {
        Some(text) => Ok(text),
        None => {
            proof {
                assert(false);
            }
            Err(StdError::GenericErr)
        },
    }
}

/// `text` begins with `prefix`.
pub open spec fn has_prefix(text: Seq<char>, prefix: Seq<char>) -> bool {
    text.len() >= prefix.len() && text.subrange(0, prefix.len() as int) == prefix
}

/// What follows `prefix` in `text`, where `text` begins with it.
pub fn strip_prefix(text: &str, prefix: &str) -> (rest: Option<String>)
    ensures
        rest.is_some() == has_prefix(text@, prefix@),
        rest matches Some(r) ==> r@ == text@.skip(prefix@.len() as int),
{
    let text_len = text.unicode_len();
    let prefix_len = prefix.unicode_len();
    if text_len < prefix_len {
        return None;
    }
    let mut i: usize = 0;
    while i < prefix_len
        invariant
            i <= prefix_len,
            prefix_len == prefix@.len(),
            text_len == text@.len(),
            prefix_len <= text_len,
            text@.subrange(0, i as int) == prefix@.subrange(0, i as int),
        decreases prefix_len - i,
    {
        if text.get_char(i) != prefix.get_char(i) {
            proof {
                if has_prefix(text@, prefix@) {
                    assert(text@.subrange(0, prefix@.len() as int)[i as int] == prefix@[i as int]);
                }
            }
            return None;
        }
        proof {
            assert(text@.subrange(0, i + 1) =~= text@.subrange(0, i as int).push(text@[i as int]));
            assert(prefix@.subrange(0, i + 1) =~= prefix@.subrange(0, i as int).push(
                prefix@[i as int],
            ));
        }
        i += 1;
    }
    assert(prefix@.subrange(0, prefix_len as int) =~= prefix@);
    let rest = text.substring_char(prefix_len, text_len);
    assert(rest@ =~= text@.skip(prefix@.len() as int));
    Some(rest.to_owned())
}

/// The decimal digits of a number, the most significant first.
pub open spec fn decimal_digits(value: nat) -> Seq<u8>
    decreases value,
{
    if value < 10 {
        seq![(0x30 + value) as u8]
    } else {
        decimal_digits(value / 10).push((0x30 + value % 10) as u8)
    }
}

/// The decimal digits of a number, as ASCII bytes.
pub fn u128_to_decimal(value: u128) -> (digits: Vec<u8>)
    ensures
        digits@ == decimal_digits(value as nat),
{
    let mut reversed: Vec<u8> = Vec::new();
    let mut rest = value;
    let ghost mut tail: Seq<u8> = Seq::empty();
    while rest >= 10
        invariant
            reversed@.len() == tail.len(),
            forall|i: int| 0 <= i < tail.len() ==> reversed@[i] == tail[tail.len() - 1 - i],
            decimal_digits(value as nat) == decimal_digits(rest as nat) + tail,
        decreases rest,
    {
        let digit = (0x30 + rest % 10) as u8;
        proof {
            let shorter = decimal_digits((rest / 10) as nat);
            assert(decimal_digits(rest as nat) == shorter.push(digit));
            assert(shorter.push(digit) + tail =~= shorter + (seq![digit] + tail));
            tail = seq![digit] + tail;
        }
        reversed.push(digit);
        rest = rest / 10;
    }
    let first = (0x30 + rest) as u8;
    let mut digits: Vec<u8> = Vec::new();
    digits.push(first);
    let mut i: usize = reversed.len();
    assert(decimal_digits(rest as nat) =~= seq![first]);
    while i > 0
        invariant
            i <= reversed.len(),
            reversed@.len() == tail.len(),
            forall|j: int| 0 <= j < tail.len() ==> reversed@[j] == tail[tail.len() - 1 - j],
            digits@ == seq![first] + tail.subrange(0, tail.len() - i),
        decreases i,
    {
        i -= 1;
        digits.push(reversed[i]);
        assert(digits@ =~= seq![first] + tail.subrange(0, tail.len() - i));
    }
    assert(tail.subrange(0, tail.len() as int) =~= tail);
    digits
}

/// The text of ASCII bytes.
pub fn ascii_to_string(bytes: Vec<u8>) -> (text: String)
    requires
        all_ascii(bytes@),
    ensures
        text@ == decode_utf8(bytes@),
{
    proof {
        lemma_ascii_is_utf8(bytes@);
    }
    match string_from_utf8(bytes) {
        Some(text) => text,
        None => {
            proof {
                assert(false);
            }
            String::new()
        },
    }
}

} // verus!
