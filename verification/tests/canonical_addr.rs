use crownfi_cw_common::data_types::canonical_addr::SeiCanonicalAddr;
use crownfi_cw_common::error::StdError;
use crownfi_cw_common::storage::SerializableItem;

// sei19rl4cm2hmr8afy4kldpxz3fka4jguq0a3vute5 <-> [40, 255, 92, 109, 87, 216, 207, 212, 146, 182, 251, 66, 97, 69, 54, 237, 100, 142, 1, 253]
#[test]
fn convert_from_human_readable() {
    let canon_addr = SeiCanonicalAddr::from([
        40, 255, 92, 109, 87, 216, 207, 212, 146, 182, 251, 66, 97, 69, 54, 237, 100, 142, 1, 253,
    ]);
    assert!(SeiCanonicalAddr::try_from("sei19rl4cm2hmr8afy4kldpxz3fka4jguq0a3vute5") == Ok(canon_addr));
}

#[test]
fn convert_to_human_readable() {
    let canon_addr = SeiCanonicalAddr::from([
        40, 255, 92, 109, 87, 216, 207, 212, 146, 182, 251, 66, 97, 69, 54, 237, 100, 142, 1, 253,
    ]);
    assert!(canon_addr.to_string().as_str() == "sei19rl4cm2hmr8afy4kldpxz3fka4jguq0a3vute5");
}

#[test]
fn short_address_is_padded_in_front() {
    let short: [u8; 20] = [
        40, 255, 92, 109, 87, 216, 207, 212, 146, 182, 251, 66, 97, 69, 54, 237, 100, 142, 1, 253,
    ];
    let addr = SeiCanonicalAddr::from_short_bytes(short);
    assert!(addr.is_externally_owned_address());
    assert_eq!(addr.as_slice(), &short[..]);
    let mut full = [0u8; 32];
    full[12..].copy_from_slice(&short);
    assert_eq!(addr, SeiCanonicalAddr::from_bytes(full));
    assert_eq!(addr.serialize_to_owned(), Ok(full.to_vec()));
    assert_eq!(addr.serialize_as_ref(), Some(&full[..]));
    assert!(addr.is_eq_addr(&short));
    assert!(!addr.is_eq_addr(&full));
}

#[test]
fn contract_address_keeps_all_bytes() {
    let mut full = [7u8; 32];
    full[0] = 0;
    let addr = SeiCanonicalAddr::from(full);
    assert!(!addr.is_externally_owned_address());
    assert_eq!(addr.as_slice(), &full[..]);
    assert_eq!(SeiCanonicalAddr::deserialize_to_owned(&full), Ok(addr));
    assert_eq!(SeiCanonicalAddr::deserialize_to_owned(&full[1..]), Err(StdError::ParseErr));
}

#[test]
fn address_of_too_many_bytes_is_refused() {
    assert_eq!(SeiCanonicalAddr::try_from_slice(&[1u8; 33]), Err(StdError::GenericErr));
    let three = SeiCanonicalAddr::try_from(&[1u8, 2, 3][..]).unwrap();
    let mut full = [0u8; 32];
    full[29] = 1;
    full[30] = 2;
    full[31] = 3;
    assert_eq!(three, SeiCanonicalAddr::from(full));
}

#[test]
fn human_readable_address_errors() {
    // not bech32 at all
    assert_eq!(SeiCanonicalAddr::try_from_str("hello"), Err(StdError::ParseErr));
    // a valid bech32 string of another chain
    assert_eq!(
        SeiCanonicalAddr::try_from_str("bc1qw508d6qejxtdg4y5r3zarvary0c5xw7kv8f3t4"),
        Err(StdError::ParseErr)
    );
    // a broken checksum
    assert_eq!(
        SeiCanonicalAddr::try_from_str("sei19rl4cm2hmr8afy4kldpxz3fka4jguq0a3vute6"),
        Err(StdError::ParseErr)
    );
    assert_eq!(
        SeiCanonicalAddr::from_decoded(Some(("sei".to_string(), vec![9u8; 40]))),
        Err(StdError::GenericErr)
    );
    assert_eq!(
        SeiCanonicalAddr::from_decoded(Some(("osmo".to_string(), vec![9u8; 20]))),
        Err(StdError::ParseErr)
    );
    assert_eq!(SeiCanonicalAddr::from_decoded(None), Err(StdError::ParseErr));
}

#[test]
fn humanize_round_trip() {
    let addr = SeiCanonicalAddr::from([9u8; 32]);
    let text = addr.humanize().unwrap();
    assert!(text.starts_with("sei1"));
    assert_eq!(SeiCanonicalAddr::try_from_str(&text), Ok(addr));
}
