use crownfi_cw_common::bytes::{signed_le_decode, signed_le_encode};
use crownfi_cw_common::data_types::canonical_addr::SeiCanonicalAddr;
use crownfi_cw_common::error::StdError;
use crownfi_cw_common::storage::base::GlobalStorage;
use crownfi_cw_common::storage::map::{StoredMap, StoredMapKeyIter};
use crownfi_cw_common::storage::{SequentialItem, SerializableItem};

#[test]
fn signed_integers_are_twos_complement() {
    assert_eq!((-1i8).serialize_to_owned(), Ok(vec![0xff]));
    assert_eq!(i8::MIN.serialize_to_owned(), Ok(vec![0x80]));
    assert_eq!(i8::MAX.serialize_to_owned(), Ok(vec![0x7f]));
    assert_eq!((-2i16).serialize_to_owned(), Ok(vec![0xfe, 0xff]));
    assert_eq!(0x0102i16.serialize_to_owned(), Ok(vec![2, 1]));
    assert_eq!((-0x01020304i32).serialize_to_owned(), Ok((-0x01020304i32).to_le_bytes().to_vec()));
    assert_eq!(i64::MIN.serialize_to_owned(), Ok(i64::MIN.to_le_bytes().to_vec()));
    assert_eq!(i128::MIN.serialize_to_owned(), Ok(i128::MIN.to_le_bytes().to_vec()));
    assert_eq!(i128::MAX.serialize_to_owned(), Ok(i128::MAX.to_le_bytes().to_vec()));
    assert_eq!((-1i128).serialize_to_owned(), Ok(vec![0xff; 16]));
    assert_eq!(i8::deserialize_to_owned(&[0x80]), Ok(i8::MIN));
    assert_eq!(i16::deserialize_to_owned(&[0xfe, 0xff]), Ok(-2));
    assert_eq!(i32::deserialize_to_owned(&(-0x01020304i32).to_le_bytes()), Ok(-0x01020304));
    assert_eq!(i64::deserialize_to_owned(&i64::MIN.to_le_bytes()), Ok(i64::MIN));
    assert_eq!(i64::deserialize_to_owned(&i64::MAX.to_le_bytes()), Ok(i64::MAX));
    assert_eq!(i128::deserialize_to_owned(&i128::MIN.to_le_bytes()), Ok(i128::MIN));
    assert_eq!(i128::deserialize_to_owned(&[0xff; 16]), Ok(-1));
    assert_eq!(i32::deserialize_to_owned(&[1, 2]), Err(StdError::ParseErr));
    assert_eq!(signed_le_encode(-3, 2), vec![0xfd, 0xff]);
    assert_eq!(signed_le_decode(&[0xfd, 0xff]), -3);
    assert_eq!(signed_le_decode(&[0xfd, 0x7f]), 0x7ffd);
}

#[test]
fn fronts_tell_where_a_value_ends() {
    assert_eq!(u16::deserialize_front(&[1, 2, 3]), Ok((0x0201, 2)));
    assert_eq!(u16::deserialize_front(&[1]), Err(StdError::ParseErr));
    assert_eq!(bool::deserialize_front(&[1, 9]), Ok((true, 1)));
    assert_eq!(bool::deserialize_front(&[2, 9]), Err(StdError::ParseErr));
    assert_eq!(<()>::deserialize_front(&[7]), Ok(((), 0)));
    assert_eq!(<[u8; 2]>::deserialize_front(&[7, 8, 9]), Ok(([7, 8], 2)));
    assert_eq!(i8::deserialize_front(&[0xff, 0]), Ok((-1, 1)));
    assert_eq!(String::deserialize_front(&[2, 0, 0, 0, b'h', b'i', b'!']), Ok(("hi".to_string(), 6)));
    assert_eq!(String::deserialize_front(&[0, 0, 0, 0]), Ok((String::new(), 4)));
    assert_eq!(String::deserialize_front(&[3, 0, 0, 0, b'h', b'i']), Err(StdError::ParseErr));
    assert_eq!(String::deserialize_front(&[3, 0, 0]), Err(StdError::ParseErr));
    assert_eq!(String::deserialize_front(&[1, 0, 0, 0, 0xff]), Err(StdError::ParseErr));
    assert_eq!(
        SeiCanonicalAddr::deserialize_front(&[5u8; 40]),
        Ok((SeiCanonicalAddr::from([5u8; 32]), 32))
    );
}

#[test]
fn pairs_and_triples_are_their_parts_in_order() {
    let pair = (0x0102u16, "hi".to_string());
    assert_eq!(pair.serialize_to_owned(), Ok(vec![2, 1, 2, 0, 0, 0, b'h', b'i']));
    assert_eq!(<(u16, String)>::deserialize_to_owned(&[2, 1, 2, 0, 0, 0, b'h', b'i']), Ok(pair));
    assert_eq!(
        <(u16, String)>::deserialize_to_owned(&[2, 1, 2, 0, 0, 0, b'h', b'i', 0]),
        Err(StdError::ParseErr)
    );
    assert_eq!(<(u16, String)>::deserialize_to_owned(&[2]), Err(StdError::ParseErr));
    assert_eq!(<(u16, u16)>::deserialize_to_owned(&[1, 0, 2]), Err(StdError::ParseErr));

    let triple = ("a".to_string(), true, -1i8);
    assert_eq!(triple.serialize_to_owned(), Ok(vec![1, 0, 0, 0, b'a', 1, 0xff]));
    assert_eq!(<(String, bool, i8)>::deserialize_to_owned(&[1, 0, 0, 0, b'a', 1, 0xff]), Ok(triple));
    // a nested pair has the bytes of the triple
    let nested = (("a".to_string(), true), -1i8);
    assert_eq!(nested.serialize_to_owned(), Ok(vec![1, 0, 0, 0, b'a', 1, 0xff]));
    assert_eq!(
        <(String, bool, i8)>::deserialize_front(&[1, 0, 0, 0, b'a', 1, 0xff, 7, 7]),
        Ok((("a".to_string(), true, -1), 7))
    );
}

#[test]
fn byte_vectors_are_length_prefixed() {
    assert_eq!(vec![7u8, 8, 9].serialize_to_owned(), Ok(vec![3, 0, 0, 0, 7, 8, 9]));
    assert_eq!(Vec::<u8>::new().serialize_to_owned(), Ok(vec![0, 0, 0, 0]));
    assert_eq!(Vec::<u8>::deserialize_to_owned(&[3, 0, 0, 0, 7, 8, 9]), Ok(vec![7, 8, 9]));
    assert_eq!(Vec::<u8>::deserialize_to_owned(&[2, 0, 0, 0, 7, 8, 9]), Err(StdError::ParseErr));
    assert_eq!(Vec::<u8>::deserialize_to_owned(&[4, 0, 0, 0, 7, 8, 9]), Err(StdError::ParseErr));
    assert_eq!(Vec::<u8>::deserialize_to_owned(&[3, 0, 0]), Err(StdError::ParseErr));
}

#[test]
fn tuple_keys_with_a_fixed_first_part() {
    let mut store = GlobalStorage::new();
    let map = StoredMap::<(u8, u16), u32>::new(b"pairs");
    for (key, value) in [((1u8, 10u16), 110u32), ((1, 20), 120), ((2, 10), 210), ((3, 5), 305)] {
        map.set(&mut store, &key, &value).unwrap();
    }
    assert_eq!(map.get(&store, &(2, 10)).unwrap().map(|c| c.into_inner()), Some(210));
    let mut all = map.iter_keys().unwrap();
    assert_eq!(all.next(&mut store), Some(Ok((1, 10))));
    assert_eq!(all.next_back(&mut store), Some(Ok((3, 5))));
    // the keys whose first part is 1, by what follows it
    let mut ones = StoredMapKeyIter::<u16>::new(b"pairs", 1u8, None, None).unwrap();
    assert_eq!(ones.next(&mut store), Some(Ok(10)));
    assert_eq!(ones.next(&mut store), Some(Ok(20)));
    assert_eq!(ones.next(&mut store), None);
}

#[test]
fn tuples_of_four() {
    let value = (1u8, 0x0203u16, "hi".to_string(), true);
    let bytes = value.serialize_to_owned().unwrap();
    assert_eq!(bytes, vec![1, 3, 2, 2, 0, 0, 0, b'h', b'i', 1]);
    assert_eq!(bytes, borsh::to_vec(&value).unwrap());
    assert_eq!(<(u8, u16, String, bool)>::deserialize_to_owned(&bytes), Ok(value.clone()));
    assert_eq!(<(u8, u16, String, bool)>::deserialize_front(&[1, 3, 2, 0, 0, 0, 0, 0, 9, 9]), Ok(((1, 0x0203, String::new(), false), 8)));

    let mut longer = bytes.clone();
    longer.push(0);
    assert_eq!(<(u8, u16, String, bool)>::deserialize_to_owned(&longer), Err(StdError::ParseErr));
    assert_eq!(<(u8, u16, String, bool)>::deserialize_to_owned(&bytes[..9]), Err(StdError::ParseErr));
    assert_eq!(<(u8, u16, String, bool)>::deserialize_to_owned(&[1, 3, 2, 0, 0, 0, 0, 2]), Err(StdError::ParseErr));

    let mut store = GlobalStorage::new();
    let map = StoredMap::<(u8, u8, u8, u8), u16>::new(b"quad");
    map.set(&mut store, &(1, 2, 3, 4), &7).unwrap();
    assert_eq!(map.key(&(1, 2, 3, 4)), vec![b'q', b'u', b'a', b'd', 1, 2, 3, 4]);
    assert_eq!(map.get(&store, &(1, 2, 3, 4)).unwrap().map(|c| c.into_inner()), Some(7));
    let mut keys = map.iter_keys().unwrap();
    assert_eq!(keys.next(&mut store), Some(Ok((1, 2, 3, 4))));
    assert_eq!(keys.next(&mut store), None);
}

#[test]
fn byte_vectors_are_laid_out_as_borsh_has_them() {
    for bytes in [vec![], vec![7u8], vec![0u8; 300], (0..=255u8).collect::<Vec<u8>>()] {
        let encoded = bytes.serialize_to_owned().unwrap();
        assert_eq!(encoded, borsh::to_vec(&bytes).unwrap());
        assert_eq!(Vec::<u8>::deserialize_to_owned(&encoded), Ok(bytes.clone()));
        assert_eq!(borsh::from_slice::<Vec<u8>>(&encoded).unwrap(), bytes);
    }
}

#[test]
fn longer_tuples() {
    let five = (1u8, 2u16, 3u32, "x".to_string(), false);
    let bytes = five.serialize_to_owned().unwrap();
    assert_eq!(bytes, vec![1, 2, 0, 3, 0, 0, 0, 1, 0, 0, 0, b'x', 0]);
    assert_eq!(bytes, borsh::to_vec(&five).unwrap());
    assert_eq!(<(u8, u16, u32, String, bool)>::deserialize_to_owned(&bytes), Ok(five.clone()));
    assert_eq!(<(u8, u16, u32, String, bool)>::deserialize_to_owned(&bytes[..12]), Err(StdError::ParseErr));
    assert_eq!(<(u8, u16, u32, String, bool)>::deserialize_to_owned(&[bytes.clone(), vec![0]].concat()), Err(StdError::ParseErr));

    let eight = (1u8, -2i8, 3u16, -4i16, 5u32, -6i32, 7u64, true);
    let bytes = eight.serialize_to_owned().unwrap();
    assert_eq!(bytes, borsh::to_vec(&eight).unwrap());
    assert_eq!(bytes.len(), 1 + 1 + 2 + 2 + 4 + 4 + 8 + 1);
    assert_eq!(<(u8, i8, u16, i16, u32, i32, u64, bool)>::deserialize_to_owned(&bytes), Ok(eight));

    let twelve = (1u8, 2u8, 3u8, 4u8, 5u8, 6u8, 7u8, 8u8, 9u8, 10u16, "k".to_string(), 12u128);
    let bytes = twelve.serialize_to_owned().unwrap();
    assert_eq!(bytes, borsh::to_vec(&twelve).unwrap());
    assert_eq!(
        <(u8, u8, u8, u8, u8, u8, u8, u8, u8, u16, String, u128)>::deserialize_front(&[bytes.clone(), vec![9, 9]].concat()),
        Ok((twelve.clone(), bytes.len()))
    );
    assert_eq!(
        <(u8, u8, u8, u8, u8, u8, u8, u8, u8, u16, String, u128)>::deserialize_to_owned(&bytes),
        Ok(twelve)
    );
}
