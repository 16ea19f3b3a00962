//! Canonical addresses: the bytes behind the human-readable form of an
//! address.

use vstd::prelude::*;
use crate::bytes::bytes_eq;
use crate::error::StdError;
use crate::storage::SerializableItem;

verus! {

/// The number of bytes that a canonical address holds.
pub const CANONICAL_LENGTH: usize = 32;

/// The number of bytes of the address of an externally owned account.
pub const SHORT_LENGTH: usize = 20;

/// A canonical address: thirty-two bytes. The address of an externally
/// owned account has twenty bytes, which stand at the end behind twelve
/// zero bytes.
#[derive(Debug, Clone, Copy, PartialEq, Eq, PartialOrd, Ord, Hash)]
pub struct SeiCanonicalAddr {
    bytes: [u8; 32],
}

impl View for SeiCanonicalAddr {
    type V = Seq<u8>;

    closed spec fn view(&self) -> Seq<u8> {
        self.bytes@
    }
}

/// `bytes` behind as many zero bytes as fill them up to thirty-two.
pub open spec fn left_padded(bytes: Seq<u8>) -> Seq<u8> {
    Seq::new((32 - bytes.len()) as nat, |i: int| 0u8) + bytes
}

/// The first twelve of the bytes are zero.
pub open spec fn is_short(bytes: Seq<u8>) -> bool {
    forall|i: int| 0 <= i < 12 ==> bytes[i] == 0u8
}

/// The bytes of an address without the padding: the last twenty bytes of
/// the address of an externally owned account, and all bytes otherwise.
pub open spec fn unpadded(bytes: Seq<u8>) -> Seq<u8> {
    if is_short(bytes) {
        bytes.skip(12)
    } else {
        bytes
    }
}

/// The human-readable part and the bytes that a bech32 string carries, or
/// `None` for a string that is not bech32 or whose data is not whole bytes.
pub uninterp spec fn bech32_decoded(text: Seq<char>) -> Option<(Seq<char>, Seq<u8>)>;

/// The bech32 string that carries `bytes` behind the human-readable part
/// `hrp`, or `None` for a part that bech32 does not admit.
pub uninterp spec fn bech32_encoded(hrp: Seq<char>, bytes: Seq<u8>) -> Option<Seq<char>>;

/// What an optional pair of text and bytes holds.
pub open spec fn decoded_view(decoded: Option<(String, Vec<u8>)>) -> Option<(Seq<char>, Seq<u8>)> {
    match decoded {
        Some((hrp, bytes)) => Some((hrp@, bytes@)),
        None => None,
    }
}

/// `bech32::decode`, followed by `Vec::<u8>::from_base32` on the data it
/// gives: the human-readable part in lower case and the bytes of the data.
/// `None` where either of the two refuses.
#[verifier::external_body]
fn bech32_decode(text: &str) -> (decoded: Option<(String, Vec<u8>)>)
    ensures
        decoded_view(decoded) == bech32_decoded(text@),
{
    let (hrp, words, _) = bech32::decode(text).ok()?;
    let bytes = <Vec<u8> as bech32::FromBase32>::from_base32(&words).ok()?;
    Some((hrp, bytes))
}

/// `bech32::encode` in the variant `Bech32`, on the data that
/// `ToBase32::to_base32` makes of the bytes. `None` where the
/// human-readable part is refused.
#[verifier::external_body]
fn bech32_encode(hrp: &str, bytes: &[u8]) -> (encoded: Option<String>)
    ensures
        encoded.is_some() == bech32_encoded(hrp@, bytes@).is_some(),
        encoded matches Some(text) ==> Some(text@) == bech32_encoded(hrp@, bytes@),
{
    bech32::encode(hrp, bech32::ToBase32::to_base32(&bytes), bech32::Variant::Bech32).ok()
}

/// The address that the parts of a decoded bech32 string stand for: `None`
/// parts, and a human-readable part other than `sei`, do not parse; more
/// than thirty-two bytes are refused; fewer are padded with zero bytes in
/// front.
pub open spec fn address_of_decoded(decoded: Option<(Seq<char>, Seq<u8>)>) -> Result<
    Seq<u8>,
    StdError,
> {
    match decoded {
        None => Err(StdError::ParseErr),
        Some((hrp, bytes)) => if hrp != "sei"@ {
            Err(StdError::ParseErr)
        } else if bytes.len() > 32 {
            Err(StdError::GenericErr)
        } else {
            Ok(left_padded(bytes))
        },
    }
}

/// What a result with an address holds.
pub open spec fn address_view(result: Result<SeiCanonicalAddr, StdError>) -> Result<
    Seq<u8>,
    StdError,
> {
    match result {
        Ok(addr) => Ok(addr@),
        Err(error) => Err(error),
    }
}

impl SeiCanonicalAddr {
    /// Every address has thirty-two bytes.
    pub proof fn lemma_len(self)
        ensures
            self@.len() == 32,
    {
    }

    /// Whether this is (in all likelihood) the address of an account with a
    /// key, not of a contract: its first twelve bytes are zero.
    pub fn is_externally_owned_address(&self) -> (short: bool)
        ensures
            short == is_short(self@),
    {
        let mut i: usize = 0;
        while i < 12
            invariant
                i <= 12,
                forall|j: int| 0 <= j < i ==> self.bytes@[j] == 0u8,
            decreases 12 - i,
        {
            if self.bytes[i] != 0 {
                return false;
            }
            i += 1;
        }
        true
    }

    /// The bytes of the address without the padding.
    pub fn as_slice(&self) -> (bytes: &[u8])
        ensures
            bytes@ == unpadded(self@),
    {
        if self.is_externally_owned_address() {
            let tail = vstd::slice::slice_subrange(self.bytes.as_slice(), 12, 32);
            assert(tail@ =~= self@.skip(12));
            tail
        } else {
            self.bytes.as_slice()
        }
    }

    /// Whether the address is the one that `canonical` holds without
    /// padding.
    pub fn is_eq_addr(&self, canonical: &[u8]) -> (same: bool)
        ensures
            same == (unpadded(self@) == canonical@),
    {
        bytes_eq(self.as_slice(), canonical)
    }

    /// The address of thirty-two given bytes.
    pub fn from_bytes(bytes: [u8; 32]) -> (addr: Self)
        ensures
            addr@ == bytes@,
    {
        SeiCanonicalAddr { bytes }
    }

    /// The address of an externally owned account, of twenty given bytes.
    pub fn from_short_bytes(value: [u8; 20]) -> (addr: Self)
        ensures
            addr@ == left_padded(value@),
    {
        match Self::try_from_slice(value.as_slice()) {
            Ok(addr) => addr,
            Err(_) => {
                proof {
                    assert(false);
                }
                SeiCanonicalAddr { bytes: [0u8; 32] }
            },
        }
    }

    /// The address of up to thirty-two bytes, which are padded with zero
    /// bytes in front. More bytes are refused.
    pub fn try_from_slice(canon_addr: &[u8]) -> (result: Result<Self, StdError>)
        ensures
            address_view(result) == (if canon_addr@.len() > 32 {
                Err::<Seq<u8>, StdError>(StdError::GenericErr)
            } else {
                Ok::<Seq<u8>, StdError>(left_padded(canon_addr@))
            }),
    {
        if canon_addr.len() > 32 {
            return Err(StdError::GenericErr);
        }
        let mut bytes = [0u8; 32];
        let offset = 32 - canon_addr.len();
        let mut i: usize = 0;
        proof {
            vstd::array::axiom_spec_array_fill_for_copy_type::<u8, 32>(0u8);
        }
        assert(forall|j: int| 0 <= j < 32 ==> #[trigger] bytes@[j] == 0u8);
        while i < canon_addr.len()
            invariant
                i <= canon_addr.len(),
                offset == 32 - canon_addr.len(),
                canon_addr.len() <= 32,
                forall|j: int| 0 <= j < offset ==> #[trigger] bytes@[j] == 0u8,
                forall|j: int| 0 <= j < i ==> bytes@[offset + j] == canon_addr@[j],
            decreases canon_addr.len() - i,
        {
            bytes[offset + i] = canon_addr[i];
            i += 1;
        }
        assert(bytes@ =~= left_padded(canon_addr@));
        Ok(SeiCanonicalAddr { bytes })
    }

    /// The address that the parts of a decoded bech32 string stand for.
    pub fn from_decoded(decoded: Option<(String, Vec<u8>)>) -> (result: Result<Self, StdError>)
        ensures
            address_view(result) == address_of_decoded(decoded_view(decoded)),
    {
        match decoded {
            None => Err(StdError::ParseErr),
            Some((hrp, bytes)) => {
                let expected = "sei".to_owned();
                if hrp != expected {
                    return Err(StdError::ParseErr);
                }
                Self::try_from_slice(bytes.as_slice())
            },
        }
    }

    /// The address that a human-readable address stands for: a bech32
    /// string with the human-readable part `sei` that carries up to
    /// thirty-two bytes.
    pub fn try_from_str(value: &str) -> (result: Result<Self, StdError>)
        ensures
            address_view(result) == address_of_decoded(bech32_decoded(value@)),
    {
        Self::from_decoded(bech32_decode(value))
    }

    /// The human-readable form of the address: the bech32 string with the
    /// human-readable part `sei` that carries the bytes of the address
    /// without padding. It must exist.
    pub fn to_string(&self) -> (text: String)
        requires
            bech32_encoded("sei"@, unpadded(self@)).is_some(),
        ensures
            Some(text@) == bech32_encoded("sei"@, unpadded(self@)),
    {
        match bech32_encode("sei", self.as_slice()) {
            Some(text) => text,
            None => {
                proof {
                    assert(false);
                }
                String::new()
            },
        }
    }

    /// The human-readable form of the address, or an error where it has
    /// none.
    pub fn humanize(&self) -> (result: Result<String, StdError>)
        ensures
            match result {
                Ok(text) => Some(text@) == bech32_encoded("sei"@, unpadded(self@)),
                Err(error) => bech32_encoded("sei"@, unpadded(self@)).is_none() && error
                    == StdError::GenericErr,
            },
    {
        match bech32_encode("sei", self.as_slice()) {
            Some(_) => Ok(self.to_string()),
            None => Err(StdError::GenericErr),
        }
    }
}

impl SerializableItem for SeiCanonicalAddr {
    open spec fn encoding(value: Seq<u8>) -> Option<Seq<u8>> {
        Some(value)
    }

    open spec fn decoding(data: Seq<u8>) -> Option<Seq<u8>> {
        if data.len() == 32 {
            Some(data)
        } else {
            None
        }
    }

    proof fn lemma_round_trip(value: SeiCanonicalAddr) {
    }

    fn serialize_to_owned(&self) -> (result: Result<Vec<u8>, StdError>) {
        let mut bytes: Vec<u8> = Vec::new();
        bytes.extend_from_slice(self.bytes.as_slice());
        assert(bytes@ =~= self@);
        Ok(bytes)
    }

    /// The thirty-two bytes of the address, padding included, as they lie in
    /// the address itself: an address always hands them out.
    fn serialize_as_ref(&self) -> (result: Option<&[u8]>)
        ensures
            result.is_some(),
            result matches Some(bytes) ==> bytes@ == self@,
    {
        Some(self.bytes.as_slice())
    }

    fn deserialize_to_owned(data: &[u8]) -> (result: Result<Self, StdError>) {
        if data.len() != 32 {
            return Err(StdError::ParseErr);
        }
        match Self::try_from_slice(data) {
            Ok(addr) => {
                assert(left_padded(data@) =~= data@);
                Ok(addr)
            },
            Err(_) => Err(StdError::ParseErr),
        }
    }

    fn deserialize_as_ref(data: &[u8]) -> (result: Option<&Self>) {
        None
    }
}

impl From<[u8; 32]> for SeiCanonicalAddr {
    /// As `from_bytes`.
    fn from(bytes: [u8; 32]) -> (addr: Self)
        ensures
            addr@ == bytes@,
    {
        Self::from_bytes(bytes)
    }
}

impl vstd::std_specs::convert::FromSpecImpl<[u8; 32]> for SeiCanonicalAddr {
    open spec fn obeys_from_spec() -> bool {
        false
    }

    open spec fn from_spec(bytes: [u8; 32]) -> Self {
        arbitrary()
    }
}

impl From<[u8; 20]> for SeiCanonicalAddr {
    /// As `from_short_bytes`.
    fn from(value: [u8; 20]) -> (addr: Self)
        ensures
            addr@ == left_padded(value@),
    {
        Self::from_short_bytes(value)
    }
}

impl vstd::std_specs::convert::FromSpecImpl<[u8; 20]> for SeiCanonicalAddr {
    open spec fn obeys_from_spec() -> bool {
        false
    }

    open spec fn from_spec(value: [u8; 20]) -> Self {
        arbitrary()
    }
}

impl TryFrom<&[u8]> for SeiCanonicalAddr {
    type Error = StdError;

    /// As `try_from_slice`.
    fn try_from(canon_addr: &[u8]) -> (result: Result<Self, StdError>)
        ensures
            address_view(result) == (if canon_addr@.len() > 32 {
                Err::<Seq<u8>, StdError>(StdError::GenericErr)
            } else {
                Ok::<Seq<u8>, StdError>(left_padded(canon_addr@))
            }),
    {
        Self::try_from_slice(canon_addr)
    }
}

impl vstd::std_specs::convert::TryFromSpecImpl<&[u8]> for SeiCanonicalAddr {
    open spec fn obeys_try_from_spec() -> bool {
        false
    }

    open spec fn try_from_spec(canon_addr: &[u8]) -> Result<Self, StdError> {
        arbitrary()
    }
}

impl TryFrom<&str> for SeiCanonicalAddr {
    type Error = StdError;

    /// As `try_from_str`.
    fn try_from(value: &str) -> (result: Result<Self, StdError>)
        ensures
            address_view(result) == address_of_decoded(bech32_decoded(value@)),
    {
        Self::try_from_str(value)
    }
}

impl vstd::std_specs::convert::TryFromSpecImpl<&str> for SeiCanonicalAddr {
    open spec fn obeys_try_from_spec() -> bool {
        false
    }

    open spec fn try_from_spec(value: &str) -> Result<Self, StdError> {
        arbitrary()
    }
}

} // verus!
