//! Byte strings: their lexicographic order and the fixed little-endian
//! encodings of the integers that the collections persist.

use vstd::prelude::*;

verus! {

/// Lexicographic "strictly less" on byte strings: the order in which a store
/// walks its keys. A proper prefix comes before every string it starts.
pub open spec fn lex_lt(a: Seq<u8>, b: Seq<u8>) -> bool
    decreases a.len(),
{
    if b.len() == 0 {
        false
    } else if a.len() == 0 {
        true
    } else if a[0] != b[0] {
        a[0] < b[0]
    } else {
        lex_lt(a.skip(1), b.skip(1))
    }
}

/// Lexicographic "less or equal".
pub open spec fn lex_le(a: Seq<u8>, b: Seq<u8>) -> bool {
    a == b || lex_lt(a, b)
}

/// No byte string comes before itself.
pub proof fn lemma_lex_irreflexive(a: Seq<u8>)
    ensures
        !lex_lt(a, a),
    decreases a.len(),
{
    if a.len() > 0 {
        lemma_lex_irreflexive(a.skip(1));
    }
}

/// Of two different byte strings exactly one comes first.
pub proof fn lemma_lex_total(a: Seq<u8>, b: Seq<u8>)
    ensures
        lex_lt(a, b) || a == b || lex_lt(b, a),
        !(lex_lt(a, b) && lex_lt(b, a)),
        !(lex_lt(a, b) && a == b),
    decreases a.len(),
{
    lemma_lex_irreflexive(a);
    if a.len() > 0 && b.len() > 0 && a[0] == b[0] {
        lemma_lex_total(a.skip(1), b.skip(1));
        if a.skip(1) == b.skip(1) {
            assert(a =~= seq![a[0]] + a.skip(1));
            assert(b =~= seq![b[0]] + b.skip(1));
        }
    } else if a.len() == 0 && b.len() == 0 {
        assert(a =~= b);
    }
}

/// The order is transitive.
pub proof fn lemma_lex_transitive(a: Seq<u8>, b: Seq<u8>, c: Seq<u8>)
    requires
        lex_lt(a, b),
        lex_lt(b, c),
    ensures
        lex_lt(a, c),
    decreases a.len(),
{
    if a.len() > 0 && a[0] == b[0] && b[0] == c[0] {
        lemma_lex_transitive(a.skip(1), b.skip(1), c.skip(1));
    }
}

/// `lex_le` followed by `lex_lt` gives `lex_lt`, and the other way round.
pub proof fn lemma_lex_le_lt(a: Seq<u8>, b: Seq<u8>, c: Seq<u8>)
    requires
        (lex_le(a, b) && lex_lt(b, c)) || (lex_lt(a, b) && lex_le(b, c)),
    ensures
        lex_lt(a, c),
{
    if a != b && b != c {
        lemma_lex_transitive(a, b, c);
    }
}

/// `lex_le` is transitive.
pub proof fn lemma_lex_le_transitive(a: Seq<u8>, b: Seq<u8>, c: Seq<u8>)
    requires
        lex_le(a, b),
        lex_le(b, c),
    ensures
        lex_le(a, c),
{
    if a != b && b != c {
        lemma_lex_transitive(a, b, c);
    }
}

/// What comes at or after a byte string does not come before it.
pub proof fn lemma_lex_le_not_gt(a: Seq<u8>, b: Seq<u8>)
    requires
        lex_le(a, b),
    ensures
        !lex_lt(b, a),
{
    lemma_lex_total(a, b);
    lemma_lex_irreflexive(a);
}

/// A finite set of byte strings that is not empty has a least member.
pub proof fn lemma_finite_set_has_least(set: Set<Seq<u8>>)
    requires
        set.finite(),
        set.len() > 0,
    ensures
        exists|least: Seq<u8>| #[trigger]
            set.contains(least) && forall|key: Seq<u8>| set.contains(key) ==> lex_le(least, key),
    decreases set.len(),
{
    let x = set.choose();
    let rest = set.remove(x);
    if rest.len() == 0 {
        assert forall|key: Seq<u8>| set.contains(key) implies lex_le(x, key) by {
            if key != x {
                assert(rest.contains(key));
            }
        }
        assert(set.contains(x) && forall|key: Seq<u8>| set.contains(key) ==> lex_le(x, key));
    } else {
        lemma_finite_set_has_least(rest);
        let m = choose|least: Seq<u8>| #[trigger]
            rest.contains(least) && forall|key: Seq<u8>| rest.contains(key) ==> lex_le(least, key);
        lemma_lex_total(x, m);
        if lex_lt(x, m) {
            assert forall|key: Seq<u8>| set.contains(key) implies lex_le(x, key) by {
                if key != x {
                    assert(rest.contains(key));
                    lemma_lex_le_lt(x, m, key);
                }
            }
            assert(set.contains(x) && forall|key: Seq<u8>| set.contains(key) ==> lex_le(x, key));
        } else {
            assert forall|key: Seq<u8>| set.contains(key) implies lex_le(m, key) by {
                if key != x {
                    assert(rest.contains(key));
                }
            }
            assert(set.contains(m) && forall|key: Seq<u8>| set.contains(key) ==> lex_le(m, key));
        }
    }
}

/// A finite set of byte strings that is not empty has a greatest member.
pub proof fn lemma_finite_set_has_greatest(set: Set<Seq<u8>>)
    requires
        set.finite(),
        set.len() > 0,
    ensures
        exists|greatest: Seq<u8>| #[trigger]
            set.contains(greatest) && forall|key: Seq<u8>|
                set.contains(key) ==> lex_le(key, greatest),
    decreases set.len(),
{
    let x = set.choose();
    let rest = set.remove(x);
    if rest.len() == 0 {
        assert forall|key: Seq<u8>| set.contains(key) implies lex_le(key, x) by {
            if key != x {
                assert(rest.contains(key));
            }
        }
        assert(set.contains(x) && forall|key: Seq<u8>| set.contains(key) ==> lex_le(key, x));
    } else {
        lemma_finite_set_has_greatest(rest);
        let m = choose|greatest: Seq<u8>| #[trigger]
            rest.contains(greatest) && forall|key: Seq<u8>|
                rest.contains(key) ==> lex_le(key, greatest);
        lemma_lex_total(x, m);
        if lex_lt(m, x) {
            assert forall|key: Seq<u8>| set.contains(key) implies lex_le(key, x) by {
                if key != x {
                    assert(rest.contains(key));
                    lemma_lex_le_lt(key, m, x);
                }
            }
            assert(set.contains(x) && forall|key: Seq<u8>| set.contains(key) ==> lex_le(key, x));
        } else {
            assert forall|key: Seq<u8>| set.contains(key) implies lex_le(key, m) by {
                if key != x {
                    assert(rest.contains(key));
                }
            }
            assert(set.contains(m) && forall|key: Seq<u8>| set.contains(key) ==> lex_le(key, m));
        }
    }
}

/// A common prefix decides nothing: the order is that of what follows it.
pub proof fn lemma_lex_common_prefix(p: Seq<u8>, x: Seq<u8>, y: Seq<u8>)
    ensures
        lex_lt(p + x, p + y) == lex_lt(x, y),
    decreases p.len(),
{
    if p.len() == 0 {
        assert(p + x =~= x);
        assert(p + y =~= y);
    } else {
        assert((p + x).skip(1) =~= p.skip(1) + x);
        assert((p + y).skip(1) =~= p.skip(1) + y);
        lemma_lex_common_prefix(p.skip(1), x, y);
    }
}

/// A byte string comes before each of its proper extensions.
pub proof fn lemma_lex_extension(p: Seq<u8>, x: Seq<u8>)
    ensures
        lex_le(p, p + x),
        x.len() > 0 ==> lex_lt(p, p + x),
{
    lemma_lex_common_prefix(p, Seq::<u8>::empty(), x);
    assert(p + Seq::<u8>::empty() =~= p);
    if x.len() == 0 {
        assert(p + x =~= p);
    }
}

/// `a` followed by one zero byte is the least byte string after `a`: what
/// comes after `a` is what is not before `a` with the zero appended.
pub proof fn lemma_lex_successor(a: Seq<u8>, k: Seq<u8>)
    ensures
        lex_lt(a, k) == lex_le(a.push(0u8), k),
    decreases a.len(),
{
    let next = a.push(0u8);
    assert(next.len() == a.len() + 1);
    if k.len() == 0 {
        assert(next != k);
    } else if a.len() == 0 {
        assert(next[0] == 0u8);
        if k[0] == 0 {
            assert(next.skip(1).len() == 0);
            assert(k.skip(1).len() == k.len() - 1);
            if k.len() == 1 {
                assert(k =~= next);
            } else {
                assert(lex_lt(next.skip(1), k.skip(1)));
                assert(lex_lt(next, k));
            }
        } else {
            assert(lex_lt(next, k));
        }
    } else {
        assert(next[0] == a[0]);
        if a[0] == k[0] {
            assert(next.skip(1) =~= a.skip(1).push(0u8));
            lemma_lex_successor(a.skip(1), k.skip(1));
            assert(next =~= seq![next[0]] + next.skip(1));
            assert(k =~= seq![k[0]] + k.skip(1));
            assert(lex_lt(next, k) == lex_lt(next.skip(1), k.skip(1)));
            assert((next == k) == (next.skip(1) == k.skip(1)));
        } else {
            assert(next != k);
            assert(lex_lt(next, k) == (a[0] < k[0]));
        }
    }
}

/// Tells whether `a` comes strictly before `b` in lexicographic order.
pub fn bytes_lt(a: &[u8], b: &[u8]) -> (r: bool)
    ensures
        r == lex_lt(a@, b@),
{
    let mut i: usize = 0;
    while i < a.len() && i < b.len()
        invariant
            i <= a.len(),
            i <= b.len(),
            a@.subrange(0, i as int) == b@.subrange(0, i as int),
        decreases a.len() - i,
    {
        if a[i] != b[i] {
            proof {
                let p = a@.subrange(0, i as int);
                assert(a@ =~= p + a@.skip(i as int));
                assert(b@ =~= p + b@.skip(i as int));
                lemma_lex_common_prefix(p, a@.skip(i as int), b@.skip(i as int));
            }
            return a[i] < b[i];
        }
        proof {
            assert(a@.subrange(0, i + 1) =~= a@.subrange(0, i as int).push(a@[i as int]));
            assert(b@.subrange(0, i + 1) =~= b@.subrange(0, i as int).push(b@[i as int]));
        }
        i += 1;
    }
    proof {
        let p = a@.subrange(0, i as int);
        assert(a@ =~= p + a@.skip(i as int));
        assert(b@ =~= p + b@.skip(i as int));
        lemma_lex_common_prefix(p, a@.skip(i as int), b@.skip(i as int));
    }
    i < b.len()
}

/// Tells whether `a` and `b` hold the same bytes.
pub fn bytes_eq(a: &[u8], b: &[u8]) -> (r: bool)
    ensures
        r == (a@ == b@),
{
    if a.len() != b.len() {
        return false;
    }
    let mut i: usize = 0;
    while i < a.len()
        invariant
            i <= a.len(),
            a.len() == b.len(),
            a@.subrange(0, i as int) == b@.subrange(0, i as int),
        decreases a.len() - i,
    {
        if a[i] != b[i] {
            return false;
        }
        proof {
            assert(a@.subrange(0, i + 1) =~= a@.subrange(0, i as int).push(a@[i as int]));
            assert(b@.subrange(0, i + 1) =~= b@.subrange(0, i as int).push(b@[i as int]));
        }
        i += 1;
    }
    proof {
        assert(a@ =~= a@.subrange(0, i as int));
        assert(b@ =~= b@.subrange(0, i as int));
    }
    true
}

/// Tells whether `a` comes before `b` or equals it.
pub fn bytes_le(a: &[u8], b: &[u8]) -> (r: bool)
    ensures
        r == lex_le(a@, b@),
{
    proof {
        lemma_lex_total(a@, b@);
    }
    !bytes_lt(b, a)
}

/// The little-endian encoding of `value` in `width` bytes: the least
/// significant byte comes first. A value too large for the width loses its
/// upper part.
pub open spec fn le_bytes(value: nat, width: nat) -> Seq<u8>
    decreases width,
{
    if width == 0 {
        Seq::empty()
    } else {
        seq![(value % 256) as u8] + le_bytes(value / 256, (width - 1) as nat)
    }
}

/// The number that a little-endian byte string stands for.
pub open spec fn le_value(bytes: Seq<u8>) -> nat
    decreases bytes.len(),
{
    if bytes.len() == 0 {
        0
    } else {
        bytes[0] as nat + 256 * le_value(bytes.skip(1))
    }
}

/// 256 to the power of `n`: the number of values that `n` bytes can hold.
pub open spec fn pow256(n: nat) -> nat
    decreases n,
{
    if n == 0 {
        1
    } else {
        256 * pow256((n - 1) as nat)
    }
}

/// The values of `pow256` at the widths of the machine integers.
pub proof fn lemma_pow256_values()
    ensures
        pow256(0) == 1,
        pow256(1) == 0x100,
        pow256(2) == 0x1_0000,
        pow256(4) == 0x1_0000_0000,
        pow256(8) == 0x1_0000_0000_0000_0000,
        pow256(16) == 0x1_0000_0000_0000_0000_0000_0000_0000_0000,
{
    reveal_with_fuel(pow256, 17);
}

/// An encoding in `width` bytes has `width` bytes.
pub proof fn lemma_le_bytes_len(value: nat, width: nat)
    ensures
        le_bytes(value, width).len() == width,
    decreases width,
{
    if width > 0 {
        lemma_le_bytes_len(value / 256, (width - 1) as nat);
    }
}

/// `n` bytes stand for a number below `pow256(n)`.
pub proof fn lemma_le_value_bound(bytes: Seq<u8>)
    ensures
        le_value(bytes) < pow256(bytes.len()),
    decreases bytes.len(),
{
    if bytes.len() > 0 {
        lemma_le_value_bound(bytes.skip(1));
        let rest = le_value(bytes.skip(1));
        let cap = pow256((bytes.len() - 1) as nat);
        assert(bytes[0] as nat + 256 * rest < 256 * cap) by (nonlinear_arith)
            requires
                rest < cap,
                bytes[0] < 256,
        ;
    }
}

/// Decoding undoes encoding, for a value that fits the width.
pub proof fn lemma_le_value_of_bytes(value: nat, width: nat)
    requires
        value < pow256(width),
    ensures
        le_value(le_bytes(value, width)) == value,
    decreases width,
{
    if width > 0 {
        let rest = le_bytes(value / 256, (width - 1) as nat);
        let bytes = le_bytes(value, width);
        assert(bytes.skip(1) =~= rest);
        assert(value / 256 < pow256((width - 1) as nat)) by (nonlinear_arith)
            requires
                value < 256 * pow256((width - 1) as nat),
        ;
        lemma_le_value_of_bytes(value / 256, (width - 1) as nat);
        assert(value % 256 + 256 * (value / 256) == value) by (nonlinear_arith);
    }
}

/// Encoding undoes decoding.
pub proof fn lemma_le_bytes_of_value(bytes: Seq<u8>)
    ensures
        le_bytes(le_value(bytes), bytes.len()) == bytes,
    decreases bytes.len(),
{
    if bytes.len() > 0 {
        let rest = le_value(bytes.skip(1));
        let value = le_value(bytes);
        lemma_le_bytes_of_value(bytes.skip(1));
        assert((bytes[0] as nat + 256 * rest) % 256 == bytes[0] as nat) by (nonlinear_arith)
            requires
                bytes[0] < 256,
        ;
        assert((bytes[0] as nat + 256 * rest) / 256 == rest) by (nonlinear_arith)
            requires
                bytes[0] < 256,
        ;
        assert(le_bytes(value, bytes.len()) =~= seq![bytes[0]] + bytes.skip(1));
        assert(seq![bytes[0]] + bytes.skip(1) =~= bytes);
    } else {
        assert(bytes =~= Seq::<u8>::empty());
    }
}

/// The little-endian encoding of `value` in `width` bytes.
pub fn le_encode(value: u128, width: usize) -> (bytes: Vec<u8>)
    ensures
        bytes@ == le_bytes(value as nat, width as nat),
{
    let mut bytes: Vec<u8> = Vec::new();
    let mut rest: u128 = value;
    let mut i: usize = 0;
    while i < width
        invariant
            i <= width,
            bytes@.len() == i,
            bytes@ + le_bytes(rest as nat, (width - i) as nat) == le_bytes(
                value as nat,
                width as nat,
            ),
        decreases width - i,
    {
        let ghost before = bytes@;
        let low: u8 = (rest % 256) as u8;
        bytes.push(low);
        proof {
            let tail = le_bytes((rest / 256) as nat, (width - i - 1) as nat);
            assert(le_bytes(rest as nat, (width - i) as nat) == seq![low] + tail);
            assert(before.push(low) + tail =~= before + (seq![low] + tail));
        }
        rest = rest / 256;
        i += 1;
    }
    assert(bytes@ + Seq::<u8>::empty() =~= bytes@);
    bytes
}

/// The number that at most sixteen little-endian bytes stand for.
pub fn le_decode(bytes: &[u8]) -> (value: u128)
    requires
        bytes@.len() <= 16,
    ensures
        value == le_value(bytes@),
{
    let mut value: u128 = 0;
    let mut i: usize = bytes.len();
    assert(bytes@.skip(i as int) =~= Seq::<u8>::empty());
    while i > 0
        invariant
            i <= bytes.len(),
            bytes@.len() <= 16,
            value == le_value(bytes@.skip(i as int)),
        decreases i,
    {
        i -= 1;
        proof {
            let tail = bytes@.skip(i as int);
            assert(tail.skip(1) =~= bytes@.skip(i + 1));
            assert(tail[0] == bytes@[i as int]);
            lemma_le_value_bound(tail);
            lemma_pow256_monotonic(tail.len(), 16);
            lemma_pow256_values();
        }
        value = value * 256 + bytes[i] as u128;
    }
    assert(bytes@.skip(0) =~= bytes@);
    value
}

/// `pow256` grows with its argument.
pub proof fn lemma_pow256_monotonic(a: nat, b: nat)
    requires
        a <= b,
    ensures
        pow256(a) <= pow256(b),
        pow256(a) > 0,
    decreases b,
{
    if a < b {
        lemma_pow256_monotonic(a, (b - 1) as nat);
    } else if a > 0 {
        lemma_pow256_monotonic((a - 1) as nat, (a - 1) as nat);
    }
}

/// The number below `pow256(width)` that stands for a signed number in
/// two's complement: the number itself where it is not negative, and the
/// number plus `pow256(width)` where it is.
pub open spec fn twos_complement(value: int, width: nat) -> nat {
    if value >= 0 {
        value as nat
    } else {
        (pow256(width) + value) as nat
    }
}

/// The signed number that a number below `pow256(width)` stands for in
/// two's complement: the upper half of the numbers are the negative ones.
pub open spec fn from_twos_complement(value: nat, width: nat) -> int {
    if 2 * value < pow256(width) {
        value as int
    } else {
        value - pow256(width)
    }
}

/// The signed number fits `width` bytes in two's complement.
pub open spec fn fits_signed(value: int, width: nat) -> bool {
    -(pow256(width) as int) <= 2 * value < pow256(width) as int
}

/// Two's complement and back is the number itself.
pub proof fn lemma_twos_complement_round_trip(value: int, width: nat)
    requires
        fits_signed(value, width),
    ensures
        twos_complement(value, width) < pow256(width),
        from_twos_complement(twos_complement(value, width), width) == value,
{
}

/// The little-endian two's complement encoding of a signed number in one,
/// two, four, eight or sixteen bytes, which the number must fit.
pub fn signed_le_encode(value: i128, width: usize) -> (bytes: Vec<u8>)
    requires
        width == 1 || width == 2 || width == 4 || width == 8 || width == 16,
        fits_signed(value as int, width as nat),
    ensures
        bytes@ == le_bytes(twos_complement(value as int, width as nat), width as nat),
{
    proof {
        lemma_pow256_values();
    }
    let max: u128 = if width == 1 {
        0xff
    } else if width == 2 {
        0xffff
    } else if width == 4 {
        0xffff_ffff
    } else if width == 8 {
        0xffff_ffff_ffff_ffff
    } else {
        u128::MAX
    };
    let unsigned: u128 = if value >= 0 {
        value as u128
    } else {
        max - ((-(value + 1)) as u128)
    };
    le_encode(unsigned, width)
}

/// The signed number that little-endian two's complement bytes stand for:
/// one, two, four, eight or sixteen of them.
pub fn signed_le_decode(bytes: &[u8]) -> (value: i128)
    requires
        bytes@.len() == 1 || bytes@.len() == 2 || bytes@.len() == 4 || bytes@.len() == 8
            || bytes@.len() == 16,
    ensures
        value == from_twos_complement(le_value(bytes@), bytes@.len()),
        fits_signed(value as int, bytes@.len()),
{
    proof {
        lemma_pow256_values();
        lemma_le_value_bound(bytes@);
    }
    let width = bytes.len();
    let unsigned = le_decode(bytes);
    let max: u128 = if width == 1 {
        0xff
    } else if width == 2 {
        0xffff
    } else if width == 4 {
        0xffff_ffff
    } else if width == 8 {
        0xffff_ffff_ffff_ffff
    } else {
        u128::MAX
    };
    if unsigned <= max / 2 {
        unsigned as i128
    } else {
        -((max - unsigned) as i128) - 1
    }
}

} // verus!
