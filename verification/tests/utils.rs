use crownfi_cw_common::error::StdError;
use crownfi_cw_common::utils::{
    apply_checksum_case, bytes_to_ethereum_address, checksumify_ethereum_address, parse_ethereum_address,
    strip_prefix, u128_to_decimal,
};

const ADDRESS: [u8; 20] = [
    40, 255, 92, 109, 87, 216, 207, 212, 146, 182, 251, 66, 97, 69, 54, 237, 100, 142, 1, 253,
];

#[test]
fn parse_ethereum_address_reads_either_case() {
    assert_eq!(parse_ethereum_address("0x28ff5c6d57d8cfd492b6fb42614536ed648e01fd"), Ok(ADDRESS));
    assert_eq!(parse_ethereum_address("0x28FF5C6D57D8CFD492B6FB42614536ED648E01FD"), Ok(ADDRESS));
    assert_eq!(parse_ethereum_address("0x28Ff5c6d57D8cFD492B6FB42614536eD648E01Fd"), Ok(ADDRESS));
}

#[test]
fn parse_ethereum_address_refuses() {
    // no prefix
    assert_eq!(parse_ethereum_address("28ff5c6d57d8cfd492b6fb42614536ed648e01fd"), Err(StdError::ParseErr));
    // too short, too long, odd
    assert_eq!(parse_ethereum_address("0x28ff"), Err(StdError::ParseErr));
    assert_eq!(parse_ethereum_address("0x28ff5c6d57d8cfd492b6fb42614536ed648e01fd00"), Err(StdError::ParseErr));
    assert_eq!(parse_ethereum_address("0x28ff5c6d57d8cfd492b6fb42614536ed648e01f"), Err(StdError::ParseErr));
    // not a digit
    assert_eq!(parse_ethereum_address("0x28ff5c6d57d8cfd492b6fb42614536ed648e01fg"), Err(StdError::ParseErr));
    assert_eq!(parse_ethereum_address(""), Err(StdError::ParseErr));
    assert_eq!(parse_ethereum_address("0"), Err(StdError::ParseErr));
    assert_eq!(parse_ethereum_address("0xé8ff5c6d57d8cfd492b6fb42614536ed648e01f"), Err(StdError::ParseErr));
}

#[test]
fn bytes_to_ethereum_address_takes_the_last_twenty() {
    assert_eq!(
        bytes_to_ethereum_address(&ADDRESS),
        Ok("0x28ff5c6d57d8cfd492b6fb42614536ed648e01fd".to_string())
    );
    let mut padded = vec![9u8; 12];
    padded.extend_from_slice(&ADDRESS);
    assert_eq!(
        bytes_to_ethereum_address(&padded),
        Ok("0x28ff5c6d57d8cfd492b6fb42614536ed648e01fd".to_string())
    );
    assert_eq!(bytes_to_ethereum_address(&ADDRESS[1..]), Err(StdError::SerializeErr));
    assert_eq!(
        bytes_to_ethereum_address(&[0x0a, 0xb0, 0x0f, 0xf0, 0, 1, 2, 3, 4, 5, 6, 7, 8, 9, 10, 11, 12, 13, 14, 255]),
        Ok("0x0ab00ff0000102030405060708090a0b0c0d0eff".to_string())
    );
}

#[test]
fn checksumify_ethereum_address_cases_by_hash() {
    assert_eq!(
        checksumify_ethereum_address("0x28ff5c6d57d8cfd492b6fb42614536ed648e01fd"),
        Ok("0x28Ff5c6d57D8cFD492B6FB42614536eD648E01Fd".to_string())
    );
    // upper-case input is lowered first
    assert_eq!(
        checksumify_ethereum_address("0x28FF5C6D57D8CFD492B6FB42614536ED648E01FD"),
        Ok("0x28Ff5c6d57D8cFD492B6FB42614536eD648E01Fd".to_string())
    );
    assert_eq!(
        checksumify_ethereum_address("0x5aaeb6053f3e94c9b9a09f33669435e7ef1beaed"),
        Ok("0x5aAeb6053F3E94C9B9A09f33669435E7Ef1BeAed".to_string())
    );
    assert_eq!(
        checksumify_ethereum_address("0xfb6916095ca1df60bb79ce92ce3ea74c37c5d359"),
        Ok("0xfB6916095ca1df60bB79Ce92cE3Ea74c37C5d359".to_string())
    );
}

#[test]
fn checksumify_ethereum_address_refuses() {
    assert_eq!(
        checksumify_ethereum_address("28ff5c6d57d8cfd492b6fb42614536ed648e01fd"),
        Err(StdError::GenericErr)
    );
    assert_eq!(checksumify_ethereum_address("0x28ff"), Err(StdError::GenericErr));
    assert_eq!(checksumify_ethereum_address("0"), Err(StdError::GenericErr));
    assert_eq!(
        checksumify_ethereum_address("0x28ff5c6d57d8cfd492b6fb42614536ed648e01é"),
        Err(StdError::GenericErr)
    );
}

#[test]
fn apply_checksum_case_follows_the_hash() {
    // an even digit goes by the whole byte, an odd digit by its lower half
    assert_eq!(apply_checksum_case(b"abcd", &[0x71, 0x08]), b"AbcD".to_vec());
    assert_eq!(apply_checksum_case(b"abcd", &[0x70, 0x87]), b"abCd".to_vec());
    assert_eq!(apply_checksum_case(b"ab12", &[0xff, 0xff]), b"AB12".to_vec());
    // digits beyond the hash stay as they are
    assert_eq!(apply_checksum_case(b"abcd", &[0xff]), b"ABcd".to_vec());
}

#[test]
fn strip_prefix_cuts_the_prefix() {
    assert_eq!(strip_prefix("cw20/abc", "cw20/"), Some("abc".to_string()));
    assert_eq!(strip_prefix("cw20/", "cw20/"), Some(String::new()));
    assert_eq!(strip_prefix("cw20", "cw20/"), None);
    assert_eq!(strip_prefix("xcw20/abc", "cw20/"), None);
    assert_eq!(strip_prefix("héllo", "hé"), Some("llo".to_string()));
}

#[test]
fn u128_to_decimal_digits() {
    assert_eq!(u128_to_decimal(0), b"0".to_vec());
    assert_eq!(u128_to_decimal(7), b"7".to_vec());
    assert_eq!(u128_to_decimal(10), b"10".to_vec());
    assert_eq!(u128_to_decimal(1234567890), b"1234567890".to_vec());
    assert_eq!(u128_to_decimal(u128::MAX), b"340282366920938463463374607431768211455".to_vec());
}
