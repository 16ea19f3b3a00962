//! Division that rounds up.

use vstd::prelude::*;
use crate::bytes::le_value;
use crate::error::StdError;

verus! {

/// The quotient of `a` by `b`, rounded up to a whole number.
pub open spec fn div_ceil_spec(a: nat, b: nat) -> nat
    recommends
        b > 0,
{
    if a % b == 0 {
        a / b
    } else {
        a / b + 1
    }
}

/// The rounded-up quotient is the least number whose product with the
/// divisor reaches the dividend.
pub proof fn lemma_div_ceil_is_least(a: nat, b: nat)
    requires
        b > 0,
    ensures
        div_ceil_spec(a, b) * b >= a,
        div_ceil_spec(a, b) > 0 ==> (div_ceil_spec(a, b) - 1) * b < a,
        div_ceil_spec(a, b) <= a,
{
    let q = a / b;
    let r = a % b;
    assert(a == q * b + r && r < b) by {
        vstd::arithmetic::div_mod::lemma_fundamental_div_mod(a as int, b as int);
        vstd::arithmetic::div_mod::lemma_mod_bound(a as int, b as int);
        assert(b * q == q * b) by (nonlinear_arith);
    }
    assert((q + 1) * b == q * b + b) by (nonlinear_arith);
    assert((q - 1) * b == q * b - b) by (nonlinear_arith);
    assert(q * b >= q) by (nonlinear_arith)
        requires
            b >= 1,
            q >= 0,
    ;
}

/// Unsigned integers with a division that rounds up: the machine integers,
/// and the integers of 256 and of 512 bits as their little-endian bytes.
pub trait UintMathExtensions: Sized {
    /// The number as a natural number.
    spec fn value(&self) -> nat;

    /// The quotient rounded up, or an error for a divisor of zero.
    fn checked_div_ceil_int(self, other: Self) -> (result: Result<Self, StdError>)
        ensures
            match result {
                Ok(quotient) => other.value() > 0 && quotient.value() == div_ceil_spec(
                    self.value(),
                    other.value(),
                ),
                Err(error) => other.value() == 0 && error == StdError::GenericErr,
            },
    ;

    /// The quotient rounded up. The divisor must not be zero.
    fn div_ceil_int(self, other: Self) -> (quotient: Self)
        requires
            other.value() > 0,
        ensures
            quotient.value() == div_ceil_spec(self.value(), other.value()),
    ;
}

impl UintMathExtensions for u64 {
    open spec fn value(&self) -> nat {
        *self as nat
    }

    fn checked_div_ceil_int(self, other: Self) -> (result: Result<Self, StdError>) {
        if other == 0 {
            Err(StdError::GenericErr)
        } else {
            Ok(self.div_ceil_int(other))
        }
    }

    fn div_ceil_int(self, other: Self) -> (quotient: Self) {
        proof {
            lemma_div_ceil_is_least(self as nat, other as nat);
        }
        if self % other == 0 {
            self / other
        } else {
            self / other + 1
        }
    }
}

impl UintMathExtensions for u128 {
    open spec fn value(&self) -> nat {
        *self as nat
    }

    fn checked_div_ceil_int(self, other: Self) -> (result: Result<Self, StdError>) {
        if other == 0 {
            Err(StdError::GenericErr)
        } else {
            Ok(self.div_ceil_int(other))
        }
    }

    fn div_ceil_int(self, other: Self) -> (quotient: Self) {
        proof {
            lemma_div_ceil_is_least(self as nat, other as nat);
        }
        if self % other == 0 {
            self / other
        } else {
            self / other + 1
        }
    }
}

/// `bnum::types::U256`: the two numbers are read by `from_le_slice`, divided
/// by `div_ceil`, and the quotient is written by `to_radix_le(256)`, all
/// in little-endian bytes. The divisor must not be zero.
#[verifier::external_body]
fn u256_div_ceil(a: &[u8], b: &[u8]) -> (quotient: Vec<u8>)
    requires
        a@.len() <= 32,
        b@.len() <= 32,
        le_value(b@) > 0,
    ensures
        le_value(quotient@) == div_ceil_spec(le_value(a@), le_value(b@)),
        quotient@.len() <= 32,
{
    let a = bnum::types::U256::from_le_slice(a).unwrap();
    let b = bnum::types::U256::from_le_slice(b).unwrap();
    a.div_ceil(b).to_radix_le(256)
}

/// `bnum::types::U512`: as for `U256`, in sixty-four bytes.
#[verifier::external_body]
fn u512_div_ceil(a: &[u8], b: &[u8]) -> (quotient: Vec<u8>)
    requires
        a@.len() <= 64,
        b@.len() <= 64,
        le_value(b@) > 0,
    ensures
        le_value(quotient@) == div_ceil_spec(le_value(a@), le_value(b@)),
        quotient@.len() <= 64,
{
    let a = bnum::types::U512::from_le_slice(a).unwrap();
    let b = bnum::types::U512::from_le_slice(b).unwrap();
    a.div_ceil(b).to_radix_le(256)
}

/// Little-endian bytes stand for zero exactly where they are all zero.
pub proof fn lemma_le_value_zero(bytes: Seq<u8>)
    ensures
        (le_value(bytes) == 0) == (forall|i: int| 0 <= i < bytes.len() ==> bytes[i] == 0u8),
    decreases bytes.len(),
{
    if bytes.len() > 0 {
        lemma_le_value_zero(bytes.skip(1));
        if forall|i: int| 0 <= i < bytes.len() ==> bytes[i] == 0u8 {
            assert forall|i: int| 0 <= i < bytes.skip(1).len() implies bytes.skip(1)[i] == 0u8 by {
                assert(bytes.skip(1)[i] == bytes[i + 1]);
            }
        }
        if le_value(bytes) == 0 {
            assert forall|i: int| 0 <= i < bytes.len() implies bytes[i] == 0u8 by {
                if i > 0 {
                    assert(bytes.skip(1)[i - 1] == bytes[i]);
                }
            }
        }
    }
}

/// Zero bytes at the end do not change the number that little-endian bytes
/// stand for.
pub proof fn lemma_le_value_padded(bytes: Seq<u8>, zeros: nat)
    ensures
        le_value(bytes + Seq::new(zeros, |i: int| 0u8)) == le_value(bytes),
    decreases bytes.len(),
{
    let padding = Seq::new(zeros, |i: int| 0u8);
    if bytes.len() == 0 {
        assert(bytes + padding =~= padding);
        lemma_le_value_zero(padding);
    } else {
        assert((bytes + padding).skip(1) =~= bytes.skip(1) + padding);
        lemma_le_value_padded(bytes.skip(1), zeros);
    }
}

/// Whether all of the bytes are zero.
fn is_zero(bytes: &[u8]) -> (zero: bool)
    ensures
        zero == (le_value(bytes@) == 0),
{
    let mut i: usize = 0;
    while i < bytes.len()
        invariant
            i <= bytes.len(),
            forall|j: int| 0 <= j < i ==> bytes@[j] == 0u8,
        decreases bytes.len() - i,
    {
        if bytes[i] != 0 {
            proof {
                lemma_le_value_zero(bytes@);
            }
            return false;
        }
        i += 1;
    }
    proof {
        lemma_le_value_zero(bytes@);
    }
    true
}

impl UintMathExtensions for [u8; 32] {
    /// The number that the bytes stand for, the least significant first.
    open spec fn value(&self) -> nat {
        le_value(self@)
    }

    fn checked_div_ceil_int(self, other: Self) -> (result: Result<Self, StdError>) {
        if is_zero(other.as_slice()) {
            Err(StdError::GenericErr)
        } else {
            Ok(self.div_ceil_int(other))
        }
    }

    fn div_ceil_int(self, other: Self) -> (quotient: Self) {
        let digits = u256_div_ceil(self.as_slice(), other.as_slice());
        let mut quotient = [0u8; 32];
        let mut i: usize = 0;
        proof {
            vstd::array::axiom_spec_array_fill_for_copy_type::<u8, 32>(0u8);
        }
        while i < digits.len()
            invariant
                i <= digits.len(),
                digits@.len() <= 32,
                forall|j: int| 0 <= j < i ==> quotient@[j] == digits@[j],
                forall|j: int| i <= j < 32 ==> #[trigger] quotient@[j] == 0u8,
            decreases digits.len() - i,
        {
            quotient[i] = digits[i];
            i += 1;
        }
        proof {
            lemma_le_value_padded(digits@, (32 - digits@.len()) as nat);
            assert(quotient@ =~= digits@ + Seq::new((32 - digits@.len()) as nat, |i: int| 0u8));
        }
        quotient
    }
}

impl UintMathExtensions for [u8; 64] {
    /// The number that the bytes stand for, the least significant first.
    open spec fn value(&self) -> nat {
        le_value(self@)
    }

    fn checked_div_ceil_int(self, other: Self) -> (result: Result<Self, StdError>) {
        if is_zero(other.as_slice()) {
            Err(StdError::GenericErr)
        } else {
            Ok(self.div_ceil_int(other))
        }
    }

    fn div_ceil_int(self, other: Self) -> (quotient: Self) {
        let digits = u512_div_ceil(self.as_slice(), other.as_slice());
        let mut quotient = [0u8; 64];
        let mut i: usize = 0;
        proof {
            vstd::array::axiom_spec_array_fill_for_copy_type::<u8, 64>(0u8);
        }
        while i < digits.len()
            invariant
                i <= digits.len(),
                digits@.len() <= 64,
                forall|j: int| 0 <= j < i ==> quotient@[j] == digits@[j],
                forall|j: int| i <= j < 64 ==> #[trigger] quotient@[j] == 0u8,
            decreases digits.len() - i,
        {
            quotient[i] = digits[i];
            i += 1;
        }
        proof {
            lemma_le_value_padded(digits@, (64 - digits@.len()) as nat);
            assert(quotient@ =~= digits@ + Seq::new((64 - digits@.len()) as nat, |i: int| 0u8));
        }
        quotient
    }
}

} // verus!
