//! Fungible assets: the coins of the chain itself, the tokens of CW20
//! contracts and the tokens of ERC20 contracts, by their kind and with an
//! amount.

use vstd::prelude::*;
use vstd::slice::slice_subrange;
use vstd::string::{StrSliceExecFns, StringExecFns};
use vstd::utf8::{decode_utf8, encode_utf8};
use crate::bytes::pow256;
use crate::error::StdError;
use crate::storage::serializable::{is_string_encoding, string_encoding};
use crate::storage::SerializableItem;
use crate::utils::{
    all_ascii, ascii_to_string, bytes_to_ethereum_address, decimal_digits, ethereum_address_bytes,
    has_prefix, hex_encoded, parse_ethereum_address, strip_prefix, u128_to_decimal,
};
use super::canonical_addr::{
    address_of_decoded, bech32_decoded, bech32_encoded, unpadded, SeiCanonicalAddr,
};

verus! {

/// The kind of a fungible asset, with its identity in bytes.
#[derive(Debug, Clone, PartialEq, Eq, Hash, PartialOrd, Ord)]
pub enum FungibleAssetKind {
    /// A coin of the chain, by its denomination.
    Native(String),
    /// A token of a CW20 contract, by the address of the contract.
    CW20(SeiCanonicalAddr),
    /// A token of an ERC20 contract, by the address of the contract.
    ERC20([u8; 20]),
}

/// The model of the kind of an asset.
pub enum AssetKindView {
    Native(Seq<char>),
    CW20(Seq<u8>),
    ERC20(Seq<u8>),
}

impl View for FungibleAssetKind {
    type V = AssetKindView;

    open spec fn view(&self) -> AssetKindView {
        match self {
            FungibleAssetKind::Native(denom) => AssetKindView::Native(denom@),
            FungibleAssetKind::CW20(addr) => AssetKindView::CW20(addr@),
            FungibleAssetKind::ERC20(addr) => AssetKindView::ERC20(addr@),
        }
    }
}

/// The kind of a fungible asset, with its identity in text.
#[derive(Debug, Clone, PartialEq, Eq, Hash, PartialOrd, Ord)]
pub enum FungibleAssetKindString {
    /// A coin of the chain, by its denomination.
    Native(String),
    /// A token of a CW20 contract, by the address of the contract.
    CW20(String),
    /// A token of an ERC20 contract, by the address of the contract.
    ERC20(String),
}

/// The model of the kind of an asset in text.
pub enum AssetKindStringView {
    Native(Seq<char>),
    CW20(Seq<char>),
    ERC20(Seq<char>),
}

impl View for FungibleAssetKindString {
    type V = AssetKindStringView;

    open spec fn view(&self) -> AssetKindStringView {
        match self {
            FungibleAssetKindString::Native(denom) => AssetKindStringView::Native(denom@),
            FungibleAssetKindString::CW20(addr) => AssetKindStringView::CW20(addr@),
            FungibleAssetKindString::ERC20(addr) => AssetKindStringView::ERC20(addr@),
        }
    }
}

impl FungibleAssetKind {
    /// Whether this is a coin of the chain.
    pub fn is_native(&self) -> (native: bool)
        ensures
            native == (self@ is Native),
    {
        match self {
            FungibleAssetKind::Native(_) => true,
            _ => false,
        }
    }

    /// Whether this is a token of a CW20 contract.
    pub fn is_cw20(&self) -> (cw20: bool)
        ensures
            cw20 == (self@ is CW20),
    {
        match self {
            FungibleAssetKind::CW20(_) => true,
            _ => false,
        }
    }

    /// Whether this is a token of an ERC20 contract.
    pub fn is_erc20(&self) -> (erc20: bool)
        ensures
            erc20 == (self@ is ERC20),
    {
        match self {
            FungibleAssetKind::ERC20(_) => true,
            _ => false,
        }
    }

    /// The kind that the text of a kind stands for: a denomination as it
    /// is, the address of a CW20 contract as the human-readable address it
    /// must be, the address of an ERC20 contract as the `0x` address it
    /// must be.
    pub fn try_from_kind_string(value: FungibleAssetKindString) -> (result: Result<Self, StdError>)
        ensures
            match value@ {
                AssetKindStringView::Native(denom) => result matches Ok(kind) && kind@
                    == AssetKindView::Native(denom),
                AssetKindStringView::CW20(addr) => match result {
                    Ok(kind) => address_of_decoded(bech32_decoded(addr)) == Ok::<
                        Seq<u8>,
                        StdError,
                    >(kind@->CW20_0) && kind@ is CW20,
                    Err(error) => address_of_decoded(bech32_decoded(addr)) == Err::<
                        Seq<u8>,
                        StdError,
                    >(error),
                },
                AssetKindStringView::ERC20(addr) => match result {
                    Ok(kind) => ethereum_address_bytes(encode_utf8(addr)) == Some(kind@->ERC20_0)
                        && kind@ is ERC20,
                    Err(error) => ethereum_address_bytes(encode_utf8(addr)).is_none() && error
                        == StdError::ParseErr,
                },
            },
    {
        match value {
            FungibleAssetKindString::Native(denom) => Ok(FungibleAssetKind::Native(denom)),
            FungibleAssetKindString::CW20(addr) => {
                match SeiCanonicalAddr::try_from_str(addr.as_str()) {
                    Ok(addr) => Ok(FungibleAssetKind::CW20(addr)),
                    Err(error) => Err(error),
                }
            },
            FungibleAssetKindString::ERC20(addr) => {
                match parse_ethereum_address(addr.as_str()) {
                    Ok(addr) => Ok(FungibleAssetKind::ERC20(addr)),
                    Err(error) => Err(error),
                }
            },
        }
    }
}

/// The encoding of the kind of an asset: one byte that tells the kind, `0`
/// for a coin of the chain, `1` for CW20 and `2` for ERC20, and then the
/// denomination as a string, or the bytes of the address.
pub open spec fn asset_kind_encoding(kind: AssetKindView) -> Option<Seq<u8>> {
    match kind {
        AssetKindView::Native(denom) => match string_encoding(denom) {
            Some(bytes) => Some(seq![0u8] + bytes),
            None => None,
        },
        AssetKindView::CW20(addr) => Some(seq![1u8] + addr),
        AssetKindView::ERC20(addr) => Some(seq![2u8] + addr),
    }
}

/// The kind of an asset that bytes stand for.
pub open spec fn asset_kind_decoding(data: Seq<u8>) -> Option<AssetKindView> {
    if data.len() == 0 {
        None
    } else if data[0] == 0 {
        if is_string_encoding(data.skip(1)) {
            Some(AssetKindView::Native(decode_utf8(data.skip(1).skip(4))))
        } else {
            None
        }
    } else if data[0] == 1 {
        if data.len() == 33 {
            Some(AssetKindView::CW20(data.skip(1)))
        } else {
            None
        }
    } else if data[0] == 2 {
        if data.len() == 21 {
            Some(AssetKindView::ERC20(data.skip(1)))
        } else {
            None
        }
    } else {
        None
    }
}

/// `tag` followed by `payload`.
fn tagged(tag: u8, payload: &[u8]) -> (bytes: Vec<u8>)
    ensures
        bytes@ == seq![tag] + payload@,
{
    let mut bytes: Vec<u8> = Vec::new();
    bytes.push(tag);
    bytes.extend_from_slice(payload);
    assert(bytes@ =~= seq![tag] + payload@);
    bytes
}

impl SerializableItem for FungibleAssetKind {
    open spec fn encoding(value: AssetKindView) -> Option<Seq<u8>> {
        asset_kind_encoding(value)
    }

    open spec fn decoding(data: Seq<u8>) -> Option<AssetKindView> {
        asset_kind_decoding(data)
    }

    proof fn lemma_round_trip(value: FungibleAssetKind) {
        let data = asset_kind_encoding(value@).unwrap();
        match value {
            FungibleAssetKind::Native(denom) => {
                let bytes = string_encoding(denom@).unwrap();
                assert(data.skip(1) =~= bytes);
                <String as SerializableItem>::lemma_round_trip(denom);
            },
            FungibleAssetKind::CW20(addr) => {
                addr.lemma_len();
                assert(data.skip(1) =~= addr@);
            },
            FungibleAssetKind::ERC20(addr) => {
                assert(data.skip(1) =~= addr@);
            },
        }
    }

    fn serialize_to_owned(&self) -> (result: Result<Vec<u8>, StdError>) {
        match self {
            FungibleAssetKind::Native(denom) => match denom.serialize_to_owned() {
                Ok(bytes) => Ok(tagged(0, bytes.as_slice())),
                Err(error) => Err(error),
            },
            FungibleAssetKind::CW20(addr) => match addr.serialize_to_owned() {
                Ok(bytes) => Ok(tagged(1, bytes.as_slice())),
                Err(error) => Err(error),
            },
            FungibleAssetKind::ERC20(addr) => Ok(tagged(2, addr.as_slice())),
        }
    }

    fn serialize_as_ref(&self) -> (result: Option<&[u8]>) {
        None
    }

    fn deserialize_to_owned(data: &[u8]) -> (result: Result<Self, StdError>) {
        if data.len() == 0 {
            return Err(StdError::ParseErr);
        }
        let payload = slice_subrange(data, 1, data.len());
        assert(payload@ =~= data@.skip(1));
        if data[0] == 0 {
            match String::deserialize_to_owned(payload) {
                Ok(denom) => Ok(FungibleAssetKind::Native(denom)),
                Err(error) => Err(error),
            }
        } else if data[0] == 1 {
            match SeiCanonicalAddr::deserialize_to_owned(payload) {
                Ok(addr) => Ok(FungibleAssetKind::CW20(addr)),
                Err(error) => Err(error),
            }
        } else if data[0] == 2 {
            match <[u8; 20]>::deserialize_to_owned(payload) {
                Ok(addr) => Ok(FungibleAssetKind::ERC20(addr)),
                Err(error) => Err(error),
            }
        } else {
            Err(StdError::ParseErr)
        }
    }

    fn deserialize_as_ref(data: &[u8]) -> (result: Option<&Self>) {
        None
    }
}

/// The kind that the text of an asset's identifier names: `cw20/` and
/// `erc20/` in front name a contract by what follows them, and any other
/// text is a denomination.
pub open spec fn kind_of_identifier(text: Seq<char>) -> AssetKindStringView {
    if has_prefix(text, "cw20/"@) {
        AssetKindStringView::CW20(text.skip(5))
    } else if has_prefix(text, "erc20/"@) {
        AssetKindStringView::ERC20(text.skip(6))
    } else {
        AssetKindStringView::Native(text)
    }
}

/// The identifier of a kind: the denomination as it is, and the address of
/// a contract behind `cw20/` or `erc20/`.
pub open spec fn identifier_of_kind(kind: AssetKindStringView) -> Seq<char> {
    match kind {
        AssetKindStringView::Native(denom) => denom,
        AssetKindStringView::CW20(addr) => "cw20/"@ + addr,
        AssetKindStringView::ERC20(addr) => "erc20/"@ + addr,
    }
}

/// `prefix` followed by `text`.
fn prefixed(prefix: &str, text: &str) -> (result: String)
    ensures
        result@ == prefix@ + text@,
{
    let mut result = prefix.to_owned();
    result.append(text);
    result
}

impl FungibleAssetKindString {
    /// Whether this is a coin of the chain.
    pub fn is_native(&self) -> (native: bool)
        ensures
            native == (self@ is Native),
    {
        match self {
            FungibleAssetKindString::Native(_) => true,
            _ => false,
        }
    }

    /// Whether this is a token of a CW20 contract.
    pub fn is_cw20(&self) -> (cw20: bool)
        ensures
            cw20 == (self@ is CW20),
    {
        match self {
            FungibleAssetKindString::CW20(_) => true,
            _ => false,
        }
    }

    /// Whether this is a token of an ERC20 contract.
    pub fn is_erc20(&self) -> (erc20: bool)
        ensures
            erc20 == (self@ is ERC20),
    {
        match self {
            FungibleAssetKindString::ERC20(_) => true,
            _ => false,
        }
    }

    /// An amount of this kind of asset.
    pub fn into_asset(self, amount: u128) -> (asset: FungibleAsset)
        ensures
            asset@ == (AssetView { kind: self@, amount }),
    {
        match self {
            FungibleAssetKindString::Native(denom) => FungibleAsset::Native(Coin { denom, amount }),
            FungibleAssetKindString::CW20(address) => FungibleAsset::CW20(
                Cw20Coin { address, amount },
            ),
            FungibleAssetKindString::ERC20(address) => FungibleAsset::ERC20(
                Cw20Coin { address, amount },
            ),
        }
    }

    /// The text of a kind in bytes: a denomination as it is, the address
    /// of a CW20 contract in its human-readable form, which it must have,
    /// and the address of an ERC20 contract as a `0x` address.
    pub fn try_from_kind(value: FungibleAssetKind) -> (result: Result<Self, StdError>)
        ensures
            match value@ {
                AssetKindView::Native(denom) => result matches Ok(kind) && kind@
                    == AssetKindStringView::Native(denom),
                AssetKindView::CW20(addr) => match result {
                    Ok(kind) => kind@ is CW20 && Some(kind@->CW20_0) == bech32_encoded(
                        "sei"@,
                        unpadded(addr),
                    ),
                    Err(error) => bech32_encoded("sei"@, unpadded(addr)).is_none() && error
                        == StdError::GenericErr,
                },
                AssetKindView::ERC20(addr) => result matches Ok(kind) && kind@
                    == AssetKindStringView::ERC20("0x"@ + hex_encoded(addr)),
            },
    {
        match value {
            FungibleAssetKind::Native(denom) => Ok(FungibleAssetKindString::Native(denom)),
            FungibleAssetKind::CW20(addr) => match addr.humanize() {
                Ok(text) => Ok(FungibleAssetKindString::CW20(text)),
                Err(error) => Err(error),
            },
            FungibleAssetKind::ERC20(addr) => {
                assert(addr@.skip(addr@.len() - 20) =~= addr@);
                match bytes_to_ethereum_address(addr.as_slice()) {
                    Ok(text) => Ok(FungibleAssetKindString::ERC20(text)),
                    Err(error) => Err(error),
                }
            },
        }
    }

    /// The identifier of the kind: the denomination as it is, and the
    /// address of a contract behind `cw20/` or `erc20/`.
    pub fn to_string(&self) -> (text: String)
        ensures
            text@ == identifier_of_kind(self@),
    {
        match self {
            FungibleAssetKindString::Native(denom) => denom.clone(),
            FungibleAssetKindString::CW20(addr) => prefixed("cw20/", addr.as_str()),
            FungibleAssetKindString::ERC20(addr) => prefixed("erc20/", addr.as_str()),
        }
    }

    /// The kind that an identifier names.
    pub fn from_str(value: &str) -> (kind: Self)
        ensures
            kind@ == kind_of_identifier(value@),
    {
        proof {
            reveal_strlit("cw20/");
            reveal_strlit("erc20/");
        }
        if let Some(rest) = strip_prefix(value, "cw20/") {
            return FungibleAssetKindString::CW20(rest);
        }
        if let Some(rest) = strip_prefix(value, "erc20/") {
            return FungibleAssetKindString::ERC20(rest);
        }
        FungibleAssetKindString::Native(value.to_owned())
    }
}

/// An amount of a coin of the chain.
#[derive(Debug, Clone, PartialEq, Eq)]
pub struct Coin {
    pub denom: String,
    pub amount: u128,
}

/// An amount of a token of a contract.
#[derive(Debug, Clone, PartialEq, Eq)]
pub struct Cw20Coin {
    pub address: String,
    pub amount: u128,
}

/// An amount of a fungible asset of any kind.
#[derive(Debug, Clone, PartialEq, Eq)]
pub enum FungibleAsset {
    Native(Coin),
    CW20(Cw20Coin),
    ERC20(Cw20Coin),
}

/// The model of an amount of an asset: its kind in text, and the amount.
pub struct AssetView {
    pub kind: AssetKindStringView,
    pub amount: u128,
}

impl View for FungibleAsset {
    type V = AssetView;

    open spec fn view(&self) -> AssetView {
        match self {
            FungibleAsset::Native(coin) => AssetView {
                kind: AssetKindStringView::Native(coin.denom@),
                amount: coin.amount,
            },
            FungibleAsset::CW20(coin) => AssetView {
                kind: AssetKindStringView::CW20(coin.address@),
                amount: coin.amount,
            },
            FungibleAsset::ERC20(coin) => AssetView {
                kind: AssetKindStringView::ERC20(coin.address@),
                amount: coin.amount,
            },
        }
    }
}

/// The denomination or address contains a slash.
pub open spec fn has_slash(text: Seq<char>) -> bool {
    exists|i: int| 0 <= i < text.len() && text[i] == '/'
}

/// The text of an amount of an asset: the amount in decimal digits,
/// followed by the denomination of a coin of the chain, which stands in
/// round brackets where it contains a slash, or by the address of the
/// contract in round brackets.
pub open spec fn asset_text(asset: AssetView) -> Seq<char> {
    let amount = decode_utf8(decimal_digits(asset.amount as nat));
    match asset.kind {
        AssetKindStringView::Native(denom) => if has_slash(denom) {
            amount + "("@ + denom + ")"@
        } else {
            amount + denom
        },
        AssetKindStringView::CW20(addr) => amount + "("@ + addr + ")"@,
        AssetKindStringView::ERC20(addr) => amount + "("@ + addr + ")"@,
    }
}

/// Whether the text contains a slash.
fn contains_slash(text: &str) -> (found: bool)
    ensures
        found == has_slash(text@),
{
    let len = text.unicode_len();
    let mut i: usize = 0;
    while i < len
        invariant
            i <= len,
            len == text@.len(),
            forall|j: int| 0 <= j < i ==> text@[j] != '/',
        decreases len - i,
    {
        if text.get_char(i) == '/' {
            return true;
        }
        i += 1;
    }
    false
}

/// The decimal digits of a number as text.
fn amount_text(amount: u128) -> (text: String)
    ensures
        text@ == decode_utf8(decimal_digits(amount as nat)),
{
    let digits = u128_to_decimal(amount);
    proof {
        lemma_decimal_digits_ascii(amount as nat);
    }
    ascii_to_string(digits)
}

/// Decimal digits are ASCII.
proof fn lemma_decimal_digits_ascii(value: nat)
    ensures
        all_ascii(decimal_digits(value)),
    decreases value,
{
    if value >= 10 {
        lemma_decimal_digits_ascii(value / 10);
    }
}

/// `text` in round brackets behind `amount`.
fn bracketed(amount: String, text: &str) -> (result: String)
    ensures
        result@ == amount@ + "("@ + text@ + ")"@,
{
    let mut result = amount;
    result.append("(");
    result.append(text);
    result.append(")");
    result
}

impl FungibleAsset {
    /// The kind of the asset in text, and the amount.
    pub fn into_asset_kind_string_and_amount(self) -> (parts: (FungibleAssetKindString, u128))
        ensures
            parts.0@ == self@.kind,
            parts.1 == self@.amount,
    {
        match self {
            FungibleAsset::Native(coin) => (
                FungibleAssetKindString::Native(coin.denom),
                coin.amount,
            ),
            FungibleAsset::CW20(cw20_coin) => (
                FungibleAssetKindString::CW20(cw20_coin.address),
                cw20_coin.amount,
            ),
            FungibleAsset::ERC20(erc20_coin) => (
                FungibleAssetKindString::ERC20(erc20_coin.address),
                erc20_coin.amount,
            ),
        }
    }

    /// The amount.
    pub fn amount(&self) -> (amount: u128)
        ensures
            amount == self@.amount,
    {
        match self {
            FungibleAsset::Native(coin) => coin.amount,
            FungibleAsset::CW20(coin) => coin.amount,
            FungibleAsset::ERC20(coin) => coin.amount,
        }
    }

    /// The identifier of the kind of the asset: the denomination as it is,
    /// and the address of a contract behind `cw20/` or `erc20/`.
    pub fn identifier(&self) -> (text: String)
        ensures
            text@ == identifier_of_kind(self@.kind),
    {
        match self {
            FungibleAsset::Native(coin) => coin.denom.clone(),
            FungibleAsset::CW20(coin) => prefixed("cw20/", coin.address.as_str()),
            FungibleAsset::ERC20(coin) => prefixed("erc20/", coin.address.as_str()),
        }
    }

    /// Whether the two are amounts of one kind of asset.
    pub fn denom_matches(&self, other: &Self) -> (same: bool)
        ensures
            same == (self@.kind == other@.kind),
    {
        match self {
            FungibleAsset::Native(coin) => match other {
                FungibleAsset::Native(other_coin) => coin.denom == other_coin.denom,
                _ => false,
            },
            FungibleAsset::CW20(coin) => match other {
                FungibleAsset::CW20(other_coin) => coin.address == other_coin.address,
                _ => false,
            },
            FungibleAsset::ERC20(coin) => match other {
                FungibleAsset::ERC20(other_coin) => coin.address == other_coin.address,
                _ => false,
            },
        }
    }

    /// The coin, where this is an amount of a coin of the chain.
    pub fn as_native_coin(&self) -> (coin: Option<&Coin>)
        ensures
            coin.is_some() == (self@.kind is Native),
            coin matches Some(c) ==> *self == FungibleAsset::Native(*c),
    {
        match self {
            FungibleAsset::Native(coin) => Some(coin),
            FungibleAsset::CW20(_) => None,
            FungibleAsset::ERC20(_) => None,
        }
    }

    /// The coin, where this is an amount of a token of a CW20 contract.
    pub fn as_cw20_coin(&self) -> (coin: Option<&Cw20Coin>)
        ensures
            coin.is_some() == (self@.kind is CW20),
            coin matches Some(c) ==> *self == FungibleAsset::CW20(*c),
    {
        match self {
            FungibleAsset::Native(_) => None,
            FungibleAsset::CW20(coin) => Some(coin),
            FungibleAsset::ERC20(_) => None,
        }
    }

    /// The coin, where this is an amount of a token of an ERC20 contract.
    pub fn as_erc20_coin(&self) -> (coin: Option<&Cw20Coin>)
        ensures
            coin.is_some() == (self@.kind is ERC20),
            coin matches Some(c) ==> *self == FungibleAsset::ERC20(*c),
    {
        match self {
            FungibleAsset::Native(_) => None,
            FungibleAsset::CW20(_) => None,
            FungibleAsset::ERC20(coin) => Some(coin),
        }
    }

    /// The amount of a coin of the chain as an asset.
    pub fn from_coin(value: Coin) -> (asset: Self)
        ensures
            asset == FungibleAsset::Native(value),
    {
        FungibleAsset::Native(value)
    }

    /// The amount of a token of a CW20 contract as an asset.
    pub fn from_cw20_coin(value: Cw20Coin) -> (asset: Self)
        ensures
            asset == FungibleAsset::CW20(value),
    {
        FungibleAsset::CW20(value)
    }

    /// The text of the amount of the asset.
    pub fn to_string(&self) -> (text: String)
        ensures
            text@ == asset_text(self@),
    {
        match self {
            FungibleAsset::Native(coin) => {
                let amount = amount_text(coin.amount);
                if contains_slash(coin.denom.as_str()) {
                    bracketed(amount, coin.denom.as_str())
                } else {
                    let mut result = amount;
                    result.append(coin.denom.as_str());
                    result
                }
            },
            FungibleAsset::CW20(coin) => bracketed(amount_text(coin.amount), coin.address.as_str()),
            FungibleAsset::ERC20(coin) => bracketed(amount_text(coin.amount), coin.address.as_str()),
        }
    }
}

/// The number that big-endian bytes stand for.
pub open spec fn be_value(bytes: Seq<u8>) -> nat
    decreases bytes.len(),
{
    if bytes.len() == 0 {
        0
    } else {
        256 * be_value(bytes.drop_last()) + bytes.last() as nat
    }
}

/// The big-endian encoding of `value` in `width` bytes.
pub open spec fn be_bytes(value: nat, width: nat) -> Seq<u8>
    decreases width,
{
    if width == 0 {
        Seq::empty()
    } else {
        be_bytes(value / 256, (width - 1) as nat).push((value % 256) as u8)
    }
}

/// `n` zero bytes.
pub open spec fn zero_bytes(n: nat) -> Seq<u8> {
    Seq::new(n, |i: int| 0u8)
}

/// The call data of `balanceOf(address)` for a holder: the selector of the
/// function and the address of the holder, padded in front to thirty-two
/// bytes.
pub open spec fn balance_of_call(holder: Seq<u8>) -> Seq<u8> {
    seq![0x70u8, 0xa0u8, 0x82u8, 0x31u8] + zero_bytes(12) + holder
}

/// The call data that moves `amount` to `to`: a selector, the address of
/// the recipient padded in front to thirty-two bytes, and the amount in
/// thirty-two big-endian bytes.
pub open spec fn transfer_call(to: Seq<u8>, amount: u128) -> Seq<u8> {
    seq![0x23u8, 0xb8u8, 0x72u8, 0xddu8] + zero_bytes(12) + to + zero_bytes(16) + be_bytes(
        amount as nat,
        16,
    )
}

/// `count` zero bytes appended to `bytes`.
fn push_zeros(bytes: &mut Vec<u8>, count: usize)
    ensures
        final(bytes)@ == old(bytes)@ + zero_bytes(count as nat),
{
    let mut i: usize = 0;
    assert(bytes@ =~= old(bytes)@ + zero_bytes(0));
    while i < count
        invariant
            i <= count,
            bytes@ == old(bytes)@ + zero_bytes(i as nat),
        decreases count - i,
    {
        bytes.push(0);
        assert(bytes@ =~= old(bytes)@ + zero_bytes((i + 1) as nat));
        i += 1;
    }
}

/// The call data of `balanceOf(address)` for the holder with the given
/// twenty bytes of address.
pub fn erc20_balance_of_payload(holder: &[u8; 20]) -> (payload: Vec<u8>)
    ensures
        payload@ == balance_of_call(holder@),
{
    let mut payload: Vec<u8> = Vec::new();
    payload.push(0x70);
    payload.push(0xa0);
    payload.push(0x82);
    payload.push(0x31);
    assert(payload@ =~= seq![0x70u8, 0xa0u8, 0x82u8, 0x31u8]);
    push_zeros(&mut payload, 12);
    payload.extend_from_slice(holder.as_slice());
    assert(payload@ =~= balance_of_call(holder@));
    payload
}

/// The balance that the result of a `balanceOf(address)` call stands for:
/// the result must have thirty-two bytes, of which the first sixteen must
/// be zero for the balance to fit; the last sixteen are the balance,
/// big-endian.
pub open spec fn balance_of_result(evm_result: Seq<u8>) -> Result<u128, StdError> {
    if evm_result.len() != 32 {
        Err(StdError::ParseErr)
    } else if evm_result.subrange(0, 16) != zero_bytes(16) {
        Err(StdError::Overflow)
    } else {
        Ok(be_value(evm_result.skip(16)) as u128)
    }
}

/// `n` bytes stand for a number below `pow256(n)`.
pub proof fn lemma_be_value_bound(bytes: Seq<u8>)
    ensures
        be_value(bytes) < pow256(bytes.len()),
    decreases bytes.len(),
{
    if bytes.len() > 0 {
        lemma_be_value_bound(bytes.drop_last());
        let rest = be_value(bytes.drop_last());
        let cap = pow256((bytes.len() - 1) as nat);
        assert(256 * rest + (bytes.last() as nat) < 256 * cap) by (nonlinear_arith)
            requires
                rest < cap,
                bytes.last() < 256,
        ;
    }
}

/// The balance that the result of a `balanceOf(address)` call stands for.
pub fn erc20_balance_from_result(evm_result: &[u8]) -> (result: Result<u128, StdError>)
    ensures
        result == balance_of_result(evm_result@),
{
    if evm_result.len() != 32 {
        return Err(StdError::ParseErr);
    }
    let mut i: usize = 0;
    while i < 16
        invariant
            i <= 16,
            evm_result@.len() == 32,
            forall|j: int| 0 <= j < i ==> evm_result@[j] == 0u8,
        decreases 16 - i,
    {
        if evm_result[i] != 0 {
            proof {
                if evm_result@.subrange(0, 16) == zero_bytes(16) {
                    assert(evm_result@.subrange(0, 16)[i as int] == 0u8);
                }
            }
            return Err(StdError::Overflow);
        }
        i += 1;
    }
    assert(evm_result@.subrange(0, 16) =~= zero_bytes(16));
    let mut balance: u128 = 0;
    let mut k: usize = 16;
    assert(evm_result@.skip(16).subrange(0, 0) =~= Seq::<u8>::empty());
    while k < 32
        invariant
            16 <= k <= 32,
            evm_result@.len() == 32,
            balance == be_value(evm_result@.skip(16).subrange(0, k - 16)),
        decreases 32 - k,
    {
        proof {
            let upto = evm_result@.skip(16).subrange(0, k - 16 + 1);
            assert(upto.drop_last() =~= evm_result@.skip(16).subrange(0, k - 16));
            assert(upto.last() == evm_result@[k as int]);
            lemma_be_value_bound(upto);
            crate::bytes::lemma_pow256_monotonic(upto.len(), 16);
            crate::bytes::lemma_pow256_values();
        }
        balance = balance * 256 + evm_result[k] as u128;
        k += 1;
    }
    assert(evm_result@.skip(16).subrange(0, 16) =~= evm_result@.skip(16));
    Ok(balance)
}

/// The sixteen big-endian bytes of a `u128`.
pub fn u128_to_be_bytes(value: u128) -> (bytes: Vec<u8>)
    ensures
        bytes@ == be_bytes(value as nat, 16),
{
    let little = crate::bytes::le_encode(value, 16);
    proof {
        crate::bytes::lemma_le_bytes_len(value as nat, 16);
    }
    let mut bytes: Vec<u8> = Vec::new();
    let mut i: usize = 16;
    while i > 0
        invariant
            i <= 16,
            little@ == crate::bytes::le_bytes(value as nat, 16),
            little@.len() == 16,
            bytes@.len() == 16 - i,
            forall|j: int| 0 <= j < 16 - i ==> bytes@[j] == little@[15 - j],
        decreases i,
    {
        i -= 1;
        bytes.push(little[i]);
    }
    proof {
        lemma_be_is_le_reversed(value as nat, 16);
        assert(bytes@ =~= be_bytes(value as nat, 16));
    }
    bytes
}

/// The big-endian encoding is the little-endian one read backwards.
pub proof fn lemma_be_is_le_reversed(value: nat, width: nat)
    ensures
        be_bytes(value, width).len() == width,
        forall|j: int|
            0 <= j < width ==> be_bytes(value, width)[j] == crate::bytes::le_bytes(
                value,
                width,
            )[width - 1 - j],
    decreases width,
{
    crate::bytes::lemma_le_bytes_len(value, width);
    if width > 0 {
        lemma_be_is_le_reversed(value / 256, (width - 1) as nat);
        crate::bytes::lemma_le_bytes_len(value / 256, (width - 1) as nat);
        assert forall|j: int| 0 <= j < width implies be_bytes(value, width)[j]
            == crate::bytes::le_bytes(value, width)[width - 1 - j] by {
            if j < width - 1 {
                assert(crate::bytes::le_bytes(value, width)[width - 1 - j]
                    == crate::bytes::le_bytes(value / 256, (width - 1) as nat)[width - 2 - j]);
            }
        }
    }
}

/// The call data that moves `amount` of a token to the address `to`.
pub fn erc20_transfer_payload(to: &[u8], amount: u128) -> (payload: Vec<u8>)
    ensures
        payload@ == transfer_call(to@, amount),
{
    let mut payload: Vec<u8> = Vec::new();
    payload.push(0x23);
    payload.push(0xb8);
    payload.push(0x72);
    payload.push(0xdd);
    assert(payload@ =~= seq![0x23u8, 0xb8u8, 0x72u8, 0xddu8]);
    push_zeros(&mut payload, 12);
    payload.extend_from_slice(to);
    let ghost head = payload@;
    assert(head =~= seq![0x23u8, 0xb8u8, 0x72u8, 0xddu8] + zero_bytes(12) + to@);
    push_zeros(&mut payload, 16);
    let amount_bytes = u128_to_be_bytes(amount);
    payload.extend_from_slice(amount_bytes.as_slice());
    assert(payload@ =~= transfer_call(to@, amount));
    payload
}

/// The bytes by which a token contract knows an address: the twenty bytes
/// of a `0x` address, or the last twenty bytes of what a human-readable
/// address stands for.
pub open spec fn evm_recipient(to: Seq<char>) -> Result<Seq<u8>, StdError> {
    if crate::utils::has_hex_prefix(encode_utf8(to)) {
        match ethereum_address_bytes(encode_utf8(to)) {
            Some(bytes) => Ok(bytes),
            None => Err(StdError::ParseErr),
        }
    } else {
        match address_of_decoded(bech32_decoded(to)) {
            Ok(addr) => Ok(addr.skip(12)),
            Err(error) => Err(error),
        }
    }
}

/// What a result with bytes holds.
pub open spec fn bytes_result_view(result: Result<Vec<u8>, StdError>) -> Result<Seq<u8>, StdError> {
    match result {
        Ok(bytes) => Ok(bytes@),
        Err(error) => Err(error),
    }
}

/// The bytes by which a token contract knows the address `to`.
pub fn erc20_recipient_bytes(to: &str) -> (result: Result<Vec<u8>, StdError>)
    ensures
        bytes_result_view(result) == evm_recipient(to@),
{
    let text = to.as_bytes();
    if text.len() >= 2 && text[0] == 0x30 && text[1] == 0x78 {
        match parse_ethereum_address(to) {
            Ok(addr) => {
                let mut bytes: Vec<u8> = Vec::new();
                bytes.extend_from_slice(addr.as_slice());
                assert(bytes@ =~= addr@);
                Ok(bytes)
            },
            Err(error) => Err(error),
        }
    } else {
        match SeiCanonicalAddr::try_from_str(to) {
            Ok(canon_addr) => {
                let slice = canon_addr.as_slice();
                proof {
                    canon_addr.lemma_len();
                }
                let tail = if canon_addr.is_externally_owned_address() {
                    slice
                } else {
                    slice_subrange(slice, 12, slice.len())
                };
                let mut bytes: Vec<u8> = Vec::new();
                bytes.extend_from_slice(tail);
                assert(bytes@ =~= canon_addr@.skip(12));
                Ok(bytes)
            },
            Err(error) => Err(error),
        }
    }
}

} // verus!
