use cosmwasm_std::{Timestamp, Uint128, Uint256, Uint512, Uint64};
use crownfi_cw_common::error::StdError;
use crownfi_cw_common::extentions::math::UintMathExtensions;
use crownfi_cw_common::extentions::timestamp::{checked_from_millis, TimestampExtentions};
use crownfi_cw_common::wasm_api::memory::{split_key_value, split_off_length_suffixed_bytes};

#[test]
fn div_ceil_int() {
    let a = Uint64::from(1000u64);
    let b = Uint64::from(3u64);
    assert_eq!(Uint64::from(a.u64().div_ceil_int(b.u64())), Uint64::from(334u64));
    assert_eq!(a.u64().checked_div_ceil_int(b.u64()).map(Uint64::from), Ok(Uint64::from(334u64)));
    assert!(a.u64().checked_div_ceil_int(Uint64::zero().u64()).is_err());

    let a = Uint128::from(1000u128);
    let b = Uint128::from(3u128);
    assert_eq!(Uint128::from(a.u128().div_ceil_int(b.u128())), Uint128::from(334u128));
    assert_eq!(a.u128().checked_div_ceil_int(b.u128()).map(Uint128::from), Ok(Uint128::from(334u128)));
    assert!(a.u128().checked_div_ceil_int(Uint128::zero().u128()).is_err());

    let a = Uint256::from(1000u128);
    let b = Uint256::from(3u128);
    assert_eq!(
        Uint256::from_le_bytes(a.to_le_bytes().div_ceil_int(b.to_le_bytes())),
        Uint256::from(334u128)
    );
    assert_eq!(
        a.to_le_bytes().checked_div_ceil_int(b.to_le_bytes()).map(Uint256::from_le_bytes),
        Ok(Uint256::from(334u128))
    );
    assert!(a.to_le_bytes().checked_div_ceil_int(Uint256::zero().to_le_bytes()).is_err());

    let a = Uint512::from(1000u128);
    let b = Uint512::from(3u128);
    assert_eq!(
        Uint512::from_le_bytes(a.to_le_bytes().div_ceil_int(b.to_le_bytes())),
        Uint512::from(334u128)
    );
    assert_eq!(
        a.to_le_bytes().checked_div_ceil_int(b.to_le_bytes()).map(Uint512::from_le_bytes),
        Ok(Uint512::from(334u128))
    );
    assert!(a.to_le_bytes().checked_div_ceil_int(Uint512::zero().to_le_bytes()).is_err());
}

#[test]
fn wide_div_ceil_int() {
    let max = [0xffu8; 32];
    let mut two = [0u8; 32];
    two[0] = 2;
    let mut half = [0u8; 32];
    half[31] = 0x80;
    assert_eq!(max.div_ceil_int(two), half);
    assert_eq!(max.div_ceil_int(max)[0], 1);
    assert_eq!([0u8; 32].div_ceil_int(two), [0u8; 32]);
    let mut big = [0u8; 64];
    big[40] = 1;
    let mut divisor = [0u8; 64];
    divisor[8] = 1;
    let mut quotient = [0u8; 64];
    quotient[32] = 1;
    assert_eq!(big.div_ceil_int(divisor), quotient);
    big[0] = 1;
    quotient[0] = 1;
    assert_eq!(big.div_ceil_int(divisor), quotient);
    assert_eq!(big.checked_div_ceil_int([0u8; 64]), Err(StdError::GenericErr));
}

#[test]
fn div_ceil_int_edges() {
    assert_eq!(0u64.div_ceil_int(7), 0);
    assert_eq!(7u64.div_ceil_int(7), 1);
    assert_eq!(8u64.div_ceil_int(7), 2);
    assert_eq!(u64::MAX.div_ceil_int(1), u64::MAX);
    assert_eq!(u64::MAX.div_ceil_int(2), 1 << 63);
    assert_eq!(u128::MAX.div_ceil_int(u128::MAX), 1);
    assert_eq!(5u128.checked_div_ceil_int(0), Err(StdError::GenericErr));
}

#[test]
fn timestamps_in_milliseconds() {
    let stamp = Timestamp::from_nanos(u64::from_millis(1_700_000_000_123));
    assert_eq!(stamp.nanos(), 1_700_000_000_123_000_000);
    assert_eq!(stamp.nanos().millis(), 1_700_000_000_123);
    assert_eq!(Timestamp::from_nanos(1_999_999).nanos().millis(), 1);
    assert_eq!(999_999u64.millis(), 0);
    assert_eq!(checked_from_millis(5), Some(5_000_000));
    assert_eq!(
        checked_from_millis(u64::MAX / 1_000_000).map(|nanos| nanos.millis()),
        Some(u64::MAX / 1_000_000)
    );
    assert!(checked_from_millis(u64::MAX / 1_000_000 + 1).is_none());
}

#[test]
fn length_suffixed_bytes() {
    let mut bytes = vec![1, 2, 3, 4, 5, 0, 0, 0, 2];
    assert_eq!(split_off_length_suffixed_bytes(&mut bytes), vec![4, 5]);
    assert_eq!(bytes, vec![1, 2, 3]);
    // a length beyond what there is takes all there is
    let mut bytes = vec![1, 2, 3, 0, 0, 1, 0];
    assert_eq!(split_off_length_suffixed_bytes(&mut bytes), vec![1, 2, 3]);
    assert_eq!(bytes, Vec::<u8>::new());
    let mut bytes = vec![0, 0, 0, 0];
    assert_eq!(split_off_length_suffixed_bytes(&mut bytes), Vec::<u8>::new());
    assert_eq!(bytes, Vec::<u8>::new());
}

#[test]
fn records_of_key_and_value() {
    let region = vec![b'k', b'e', b'y', 0, 0, 0, 3, b'v', b'a', 0, 0, 0, 2];
    assert_eq!(split_key_value(region), Some((b"key".to_vec(), b"va".to_vec())));
    assert_eq!(split_key_value(vec![0, 0, 0, 0, 0, 0, 0, 0]), Some((vec![], vec![])));
    assert_eq!(split_key_value(vec![0, 0, 0]), None);
    assert_eq!(split_key_value(vec![1, 0, 0, 0, 1]), None);
}
