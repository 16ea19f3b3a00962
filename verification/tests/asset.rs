use crownfi_cw_common::data_types::asset::{
    erc20_balance_from_result, erc20_balance_of_payload, erc20_recipient_bytes, erc20_transfer_payload,
    u128_to_be_bytes, Coin, Cw20Coin, FungibleAsset, FungibleAssetKind, FungibleAssetKindString,
};
use crownfi_cw_common::data_types::canonical_addr::SeiCanonicalAddr;
use crownfi_cw_common::error::StdError;
use crownfi_cw_common::storage::base::GlobalStorage;
use crownfi_cw_common::storage::map::StoredMap;
use crownfi_cw_common::storage::SerializableItem;

const ADDRESS: [u8; 20] = [
    40, 255, 92, 109, 87, 216, 207, 212, 146, 182, 251, 66, 97, 69, 54, 237, 100, 142, 1, 253,
];

#[test]
fn asset_kind_predicates() {
    let native = FungibleAssetKind::Native("usei".to_string());
    let cw20 = FungibleAssetKind::CW20(SeiCanonicalAddr::from(ADDRESS));
    let erc20 = FungibleAssetKind::ERC20(ADDRESS);
    assert!(native.is_native() && !native.is_cw20() && !native.is_erc20());
    assert!(!cw20.is_native() && cw20.is_cw20() && !cw20.is_erc20());
    assert!(!erc20.is_native() && !erc20.is_cw20() && erc20.is_erc20());
    let native = FungibleAssetKindString::Native("usei".to_string());
    let cw20 = FungibleAssetKindString::CW20("sei1abc".to_string());
    let erc20 = FungibleAssetKindString::ERC20("0xabc".to_string());
    assert!(native.is_native() && !native.is_cw20() && !native.is_erc20());
    assert!(!cw20.is_native() && cw20.is_cw20() && !cw20.is_erc20());
    assert!(!erc20.is_native() && !erc20.is_cw20() && erc20.is_erc20());
}

#[test]
fn asset_kind_string_from_identifier() {
    assert_eq!(FungibleAssetKindString::from_str("usei"), FungibleAssetKindString::Native("usei".to_string()));
    assert_eq!(
        FungibleAssetKindString::from_str("cw20/sei1abc"),
        FungibleAssetKindString::CW20("sei1abc".to_string())
    );
    assert_eq!(
        FungibleAssetKindString::from_str("erc20/0xabc"),
        FungibleAssetKindString::ERC20("0xabc".to_string())
    );
    assert_eq!(
        FungibleAssetKindString::from_str("factory/sei1abc/token"),
        FungibleAssetKindString::Native("factory/sei1abc/token".to_string())
    );
    assert_eq!(FungibleAssetKindString::from_str("cw20/"), FungibleAssetKindString::CW20(String::new()));
    for text in ["usei", "cw20/sei1abc", "erc20/0xabc"] {
        assert_eq!(FungibleAssetKindString::from_str(text).to_string(), text);
    }
}

#[test]
fn asset_kind_conversions() {
    let text = FungibleAssetKindString::CW20("sei19rl4cm2hmr8afy4kldpxz3fka4jguq0a3vute5".to_string());
    let kind = FungibleAssetKind::try_from_kind_string(text.clone()).unwrap();
    assert_eq!(kind, FungibleAssetKind::CW20(SeiCanonicalAddr::from(ADDRESS)));
    assert_eq!(FungibleAssetKindString::try_from_kind(kind), Ok(text));

    let text = FungibleAssetKindString::ERC20("0x28ff5c6d57d8cfd492b6fb42614536ed648e01fd".to_string());
    let kind = FungibleAssetKind::try_from_kind_string(text.clone()).unwrap();
    assert_eq!(kind, FungibleAssetKind::ERC20(ADDRESS));
    assert_eq!(FungibleAssetKindString::try_from_kind(kind), Ok(text));

    let text = FungibleAssetKindString::Native("usei".to_string());
    let kind = FungibleAssetKind::try_from_kind_string(text.clone()).unwrap();
    assert_eq!(kind, FungibleAssetKind::Native("usei".to_string()));
    assert_eq!(FungibleAssetKindString::try_from_kind(kind), Ok(text));

    assert_eq!(
        FungibleAssetKind::try_from_kind_string(FungibleAssetKindString::ERC20("28ff".to_string())),
        Err(StdError::ParseErr)
    );
    assert_eq!(
        FungibleAssetKind::try_from_kind_string(FungibleAssetKindString::CW20("nonsense".to_string())),
        Err(StdError::ParseErr)
    );
}

#[test]
fn asset_kind_encoding_layout() {
    let native = FungibleAssetKind::Native("usei".to_string());
    assert_eq!(native.serialize_to_owned(), Ok(vec![0, 4, 0, 0, 0, b'u', b's', b'e', b'i']));
    let erc20 = FungibleAssetKind::ERC20(ADDRESS);
    let mut expected = vec![2u8];
    expected.extend_from_slice(&ADDRESS);
    assert_eq!(erc20.serialize_to_owned(), Ok(expected.clone()));
    assert_eq!(FungibleAssetKind::deserialize_to_owned(&expected), Ok(erc20));
    let cw20 = FungibleAssetKind::CW20(SeiCanonicalAddr::from(ADDRESS));
    let mut expected = vec![1u8];
    expected.extend_from_slice(&[0u8; 12]);
    expected.extend_from_slice(&ADDRESS);
    assert_eq!(cw20.serialize_to_owned(), Ok(expected.clone()));
    assert_eq!(FungibleAssetKind::deserialize_to_owned(&expected), Ok(cw20));
    assert_eq!(
        FungibleAssetKind::deserialize_to_owned(&[0, 4, 0, 0, 0, b'u', b's', b'e', b'i']),
        Ok(native)
    );
    assert_eq!(FungibleAssetKind::deserialize_to_owned(&[]), Err(StdError::ParseErr));
    assert_eq!(FungibleAssetKind::deserialize_to_owned(&[3, 1, 2]), Err(StdError::ParseErr));
    assert_eq!(FungibleAssetKind::deserialize_to_owned(&[2, 1, 2]), Err(StdError::ParseErr));
    assert_eq!(FungibleAssetKind::deserialize_to_owned(&[0, 4, 0, 0, 0, b'u']), Err(StdError::ParseErr));
}

#[test]
fn asset_kind_as_map_key() {
    let mut store = GlobalStorage::new();
    let map = StoredMap::<FungibleAssetKind, u128>::new(b"balances");
    let usei = FungibleAssetKind::Native("usei".to_string());
    let token = FungibleAssetKind::ERC20(ADDRESS);
    map.set(&mut store, &usei, &100).unwrap();
    map.set(&mut store, &token, &7).unwrap();
    assert_eq!(map.get(&store, &usei).unwrap().map(|c| c.into_inner()), Some(100));
    assert_eq!(map.get(&store, &token).unwrap().map(|c| c.into_inner()), Some(7));
    let mut iter = map.iter_keys().unwrap();
    assert_eq!(iter.next(&mut store), Some(Ok(usei)));
    assert_eq!(iter.next(&mut store), Some(Ok(token)));
    assert_eq!(iter.next(&mut store), None);
}

#[test]
fn fungible_asset_parts() {
    let asset = FungibleAssetKindString::Native("usei".to_string()).into_asset(5);
    assert_eq!(asset, FungibleAsset::Native(Coin { denom: "usei".to_string(), amount: 5 }));
    assert_eq!(asset.amount(), 5);
    assert_eq!(asset.identifier(), "usei");
    assert_eq!(asset.as_native_coin(), Some(&Coin { denom: "usei".to_string(), amount: 5 }));
    assert_eq!(asset.as_cw20_coin(), None);
    assert_eq!(asset.as_erc20_coin(), None);
    assert_eq!(
        asset.clone().into_asset_kind_string_and_amount(),
        (FungibleAssetKindString::Native("usei".to_string()), 5)
    );

    let token = FungibleAssetKindString::CW20("sei1abc".to_string()).into_asset(9);
    assert_eq!(token, FungibleAsset::from_cw20_coin(Cw20Coin { address: "sei1abc".to_string(), amount: 9 }));
    assert_eq!(token.identifier(), "cw20/sei1abc");
    assert_eq!(token.as_cw20_coin(), Some(&Cw20Coin { address: "sei1abc".to_string(), amount: 9 }));
    assert_eq!(token.as_native_coin(), None);

    let evm = FungibleAssetKindString::ERC20("0xabc".to_string()).into_asset(1);
    assert_eq!(evm.identifier(), "erc20/0xabc");
    assert_eq!(evm.as_erc20_coin(), Some(&Cw20Coin { address: "0xabc".to_string(), amount: 1 }));
    assert_eq!(evm.as_cw20_coin(), None);

    assert!(asset.denom_matches(&FungibleAsset::from_coin(Coin { denom: "usei".to_string(), amount: 77 })));
    assert!(!asset.denom_matches(&FungibleAsset::from_coin(Coin { denom: "uatom".to_string(), amount: 5 })));
    assert!(!asset.denom_matches(&token));
    // one address, two kinds of contract
    let same_address = FungibleAssetKindString::ERC20("sei1abc".to_string()).into_asset(9);
    assert!(!token.denom_matches(&same_address));
}

#[test]
fn fungible_asset_text() {
    assert_eq!(FungibleAssetKindString::Native("usei".to_string()).into_asset(1500).to_string(), "1500usei");
    assert_eq!(
        FungibleAssetKindString::Native("factory/sei1abc/token".to_string()).into_asset(3).to_string(),
        "3(factory/sei1abc/token)"
    );
    assert_eq!(FungibleAssetKindString::CW20("sei1abc".to_string()).into_asset(0).to_string(), "0(sei1abc)");
    assert_eq!(
        FungibleAssetKindString::ERC20("0xabc".to_string()).into_asset(u128::MAX).to_string(),
        "340282366920938463463374607431768211455(0xabc)"
    );
}

#[test]
fn erc20_call_data() {
    let mut expected = vec![0x70, 0xa0, 0x82, 0x31];
    expected.extend_from_slice(&[0u8; 12]);
    expected.extend_from_slice(&ADDRESS);
    assert_eq!(erc20_balance_of_payload(&ADDRESS), expected);
    assert_eq!(expected.len(), 36);

    let mut expected = vec![0x23, 0xb8, 0x72, 0xdd];
    expected.extend_from_slice(&[0u8; 12]);
    expected.extend_from_slice(&ADDRESS);
    expected.extend_from_slice(&[0u8; 16]);
    expected.extend_from_slice(&0x0102_0304u128.to_be_bytes());
    assert_eq!(erc20_transfer_payload(&ADDRESS, 0x0102_0304), expected);
    assert_eq!(expected.len(), 68);
    assert_eq!(u128_to_be_bytes(0x0102_0304), 0x0102_0304u128.to_be_bytes().to_vec());
    assert_eq!(u128_to_be_bytes(u128::MAX), vec![255u8; 16]);
}

#[test]
fn erc20_balance_results() {
    let mut result = vec![0u8; 32];
    result[30] = 1;
    result[31] = 2;
    assert_eq!(erc20_balance_from_result(&result), Ok(258));
    let mut result = vec![0u8; 16];
    result.extend_from_slice(&[255u8; 16]);
    assert_eq!(erc20_balance_from_result(&result), Ok(u128::MAX));
    result[15] = 1;
    assert_eq!(erc20_balance_from_result(&result), Err(StdError::Overflow));
    assert_eq!(erc20_balance_from_result(&[0u8; 31]), Err(StdError::ParseErr));
    assert_eq!(erc20_balance_from_result(&[0u8; 33]), Err(StdError::ParseErr));
}

#[test]
fn erc20_recipients() {
    assert_eq!(erc20_recipient_bytes("0x28ff5c6d57d8cfd492b6fb42614536ed648e01fd"), Ok(ADDRESS.to_vec()));
    assert_eq!(erc20_recipient_bytes("sei19rl4cm2hmr8afy4kldpxz3fka4jguq0a3vute5"), Ok(ADDRESS.to_vec()));
    let contract = SeiCanonicalAddr::from([7u8; 32]);
    assert_eq!(erc20_recipient_bytes(&contract.to_string()), Ok(vec![7u8; 20]));
    assert_eq!(erc20_recipient_bytes("0x28ff"), Err(StdError::ParseErr));
    assert_eq!(erc20_recipient_bytes("someone"), Err(StdError::ParseErr));
}
