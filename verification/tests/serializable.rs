use crownfi_cw_common::bytes::{le_decode, le_encode};
use crownfi_cw_common::error::StdError;
use crownfi_cw_common::storage::base::{storage_read, storage_read_item, storage_write, storage_write_item, GlobalStorage};
use crownfi_cw_common::storage::queue::QueueEnds;
use crownfi_cw_common::storage::vec::{u32_from_le_bytes_or_zero, u32_to_le_bytes};
use crownfi_cw_common::storage::{concat_byte_array_pairs, OZeroCopy, SerializableItem};

#[test]
fn integers_are_little_endian() {
    assert_eq!(0x12u8.serialize_to_owned(), Ok(vec![0x12]));
    assert_eq!(0x1234u16.serialize_to_owned(), Ok(vec![0x34, 0x12]));
    assert_eq!(0x12345678u32.serialize_to_owned(), Ok(vec![0x78, 0x56, 0x34, 0x12]));
    assert_eq!(
        0x0102030405060708u64.serialize_to_owned(),
        Ok(vec![8, 7, 6, 5, 4, 3, 2, 1])
    );
    assert_eq!(
        0x0102030405060708090a0b0c0d0e0f10u128.serialize_to_owned(),
        Ok(vec![16, 15, 14, 13, 12, 11, 10, 9, 8, 7, 6, 5, 4, 3, 2, 1])
    );
    assert_eq!(u8::deserialize_to_owned(&[0x12]), Ok(0x12));
    assert_eq!(u16::deserialize_to_owned(&[0x34, 0x12]), Ok(0x1234));
    assert_eq!(u32::deserialize_to_owned(&[0x78, 0x56, 0x34, 0x12]), Ok(0x12345678));
    assert_eq!(u64::deserialize_to_owned(&[8, 7, 6, 5, 4, 3, 2, 1]), Ok(0x0102030405060708));
    assert_eq!(u128::deserialize_to_owned(&[255u8; 16]), Ok(u128::MAX));
    assert_eq!(u64::deserialize_to_owned(&u64::MAX.to_le_bytes()), Ok(u64::MAX));
}

#[test]
fn integers_of_the_wrong_size_do_not_parse() {
    assert_eq!(u8::deserialize_to_owned(&[]), Err(StdError::ParseErr));
    assert_eq!(u16::deserialize_to_owned(&[1]), Err(StdError::ParseErr));
    assert_eq!(u32::deserialize_to_owned(&[1, 2, 3, 4, 5]), Err(StdError::ParseErr));
    assert_eq!(u64::deserialize_to_owned(&[1, 2, 3, 4]), Err(StdError::ParseErr));
    assert_eq!(u128::deserialize_to_owned(&[0u8; 15]), Err(StdError::ParseErr));
    assert!(u32::deserialize_as_ref(&[1, 2, 3, 4]).is_none());
    assert!(7u32.serialize_as_ref().is_none());
}

#[test]
fn le_encode_and_decode() {
    assert_eq!(le_encode(0x0102, 4), vec![2, 1, 0, 0]);
    assert_eq!(le_encode(0x010203, 2), vec![3, 2]);
    assert_eq!(le_encode(5, 0), Vec::<u8>::new());
    assert_eq!(le_decode(&[2, 1, 0, 0]), 0x0102);
    assert_eq!(le_decode(&[]), 0);
    assert_eq!(le_decode(&[255u8; 16]), u128::MAX);
    assert_eq!(u32_to_le_bytes(0xdeadbeef), vec![0xef, 0xbe, 0xad, 0xde]);
    assert_eq!(u32_from_le_bytes_or_zero(&[0xef, 0xbe, 0xad, 0xde]), 0xdeadbeef);
    assert_eq!(u32_from_le_bytes_or_zero(&[1, 2, 3]), 0);
    assert_eq!(u32_from_le_bytes_or_zero(&[1, 2, 3, 4, 5]), 0);
}

#[test]
fn booleans() {
    assert_eq!(true.serialize_to_owned(), Ok(vec![1]));
    assert_eq!(false.serialize_to_owned(), Ok(vec![0]));
    assert_eq!(bool::deserialize_to_owned(&[1]), Ok(true));
    assert_eq!(bool::deserialize_to_owned(&[0]), Ok(false));
    assert_eq!(bool::deserialize_to_owned(&[2]), Err(StdError::ParseErr));
    assert_eq!(bool::deserialize_to_owned(&[]), Err(StdError::ParseErr));
    assert_eq!(bool::deserialize_to_owned(&[1, 0]), Err(StdError::ParseErr));
}

#[test]
fn strings_are_length_prefixed() {
    assert_eq!("hi".to_string().serialize_to_owned(), Ok(vec![2, 0, 0, 0, b'h', b'i']));
    assert_eq!(String::new().serialize_to_owned(), Ok(vec![0, 0, 0, 0]));
    assert_eq!("é".to_string().serialize_to_owned(), Ok(vec![2, 0, 0, 0, 0xc3, 0xa9]));
    assert_eq!(String::deserialize_to_owned(&[2, 0, 0, 0, b'h', b'i']), Ok("hi".to_string()));
    assert_eq!(String::deserialize_to_owned(&[2, 0, 0, 0, 0xc3, 0xa9]), Ok("é".to_string()));
    // too short for the length, bytes left over, no length, not UTF-8
    assert_eq!(String::deserialize_to_owned(&[3, 0, 0, 0, b'h', b'i']), Err(StdError::ParseErr));
    assert_eq!(String::deserialize_to_owned(&[1, 0, 0, 0, b'h', b'i']), Err(StdError::ParseErr));
    assert_eq!(String::deserialize_to_owned(&[2, 0, 0]), Err(StdError::ParseErr));
    assert_eq!(String::deserialize_to_owned(&[2, 0, 0, 0, 0xc3, 0x28]), Err(StdError::ParseErr));
}

#[test]
fn unit_and_byte_arrays() {
    assert_eq!(().serialize_to_owned(), Ok(vec![]));
    assert_eq!(<()>::deserialize_to_owned(&[]), Ok(()));
    assert_eq!(<()>::deserialize_to_owned(&[0]), Err(StdError::ParseErr));
    let array = [1u8, 2, 3];
    assert_eq!(array.serialize_to_owned(), Ok(vec![1, 2, 3]));
    assert_eq!(array.serialize_as_ref(), Some(&[1u8, 2, 3][..]));
    assert_eq!(<[u8; 3]>::deserialize_to_owned(&[1, 2, 3]), Ok(array));
    assert_eq!(<[u8; 3]>::deserialize_as_ref(&[1, 2, 3]), Some(&array));
    assert_eq!(<[u8; 3]>::deserialize_to_owned(&[1, 2]), Err(StdError::ParseErr));
    assert_eq!(<[u8; 3]>::deserialize_as_ref(&[1, 2, 3, 4]), None);
}

#[test]
fn queue_ends_are_two_cursors() {
    let ends = QueueEnds { front: 0x01020304, back: 5 };
    assert_eq!(ends.serialize_to_owned(), Ok(vec![4, 3, 2, 1, 5, 0, 0, 0]));
    assert_eq!(QueueEnds::deserialize_to_owned(&[4, 3, 2, 1, 5, 0, 0, 0]), Ok(ends));
    assert_eq!(QueueEnds::deserialize_to_owned(&[4, 3, 2, 1]), Err(StdError::ParseErr));
}

#[test]
fn cells_hold_values() {
    let cell = OZeroCopy::<u16>::new(vec![0x34, 0x12]).unwrap();
    assert_eq!(*cell.as_ref(), 0x1234);
    assert_eq!(cell.clone().into_inner(), 0x1234);
    assert_eq!(cell.try_into_bytes(), Ok(vec![0x34, 0x12]));
    assert_eq!(OZeroCopy::<u16>::new(vec![1]), Err(StdError::ParseErr));
    let mut cell = OZeroCopy::from_inner("a".to_string());
    cell.as_mut().push('b');
    assert_eq!(cell.as_ref(), "ab");
    cell.set("c".to_string());
    assert_eq!(cell.into_inner(), "c");
}

#[test]
fn items_are_written_alike_on_both_paths() {
    // a byte array hands out its bytes by reference, an integer in a buffer
    let mut store = GlobalStorage::new();
    storage_write_item(&mut store, b"by_ref", &[1u8, 2, 3, 4]).unwrap();
    storage_write_item(&mut store, b"owned", &0x04030201u32).unwrap();
    assert_eq!(storage_read(&store, b"by_ref"), Some(vec![1, 2, 3, 4]));
    assert_eq!(storage_read(&store, b"owned"), Some(vec![1, 2, 3, 4]));
    // load, change, save: the bytes are those of the changed value
    let mut cell = storage_read_item::<[u8; 4]>(&store, b"by_ref").unwrap().unwrap();
    cell.as_mut()[0] = 9;
    storage_write_item(&mut store, b"by_ref", cell.as_ref()).unwrap();
    let mut number = storage_read_item::<u32>(&store, b"owned").unwrap().unwrap();
    *number.as_mut() = 0x04030209;
    storage_write_item(&mut store, b"owned", number.as_ref()).unwrap();
    assert_eq!(storage_read(&store, b"by_ref"), storage_read(&store, b"owned"));
    assert_eq!(storage_read(&store, b"by_ref"), Some(vec![9, 2, 3, 4]));
}

#[test]
fn items_that_do_not_parse_are_errors() {
    let mut store = GlobalStorage::new();
    storage_write(&mut store, b"k", &[1, 2, 3]);
    assert_eq!(storage_read_item::<u16>(&store, b"k"), Err(StdError::ParseErr));
    assert_eq!(storage_read_item::<u16>(&store, b"absent"), Ok(None));
    assert_eq!(storage_read_item::<[u8; 3]>(&store, b"k"), Ok(Some(OZeroCopy::from_inner([1, 2, 3]))));
}

#[test]
fn concat_byte_array_pairs_joins() {
    assert_eq!(concat_byte_array_pairs(b"ab", b"cd"), b"abcd".to_vec());
    assert_eq!(concat_byte_array_pairs(b"", b"cd"), b"cd".to_vec());
    assert_eq!(concat_byte_array_pairs(b"ab", b""), b"ab".to_vec());
}
