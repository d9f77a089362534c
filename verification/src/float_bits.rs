//! Binary32 values as their bits: classification, the two-byte format and the
//! reciprocals of small counts.

use vstd::arithmetic::power2::{
    lemma2_to64, lemma_pow2_adds, lemma_pow2_strictly_increases, lemma_pow2_unfold, pow2,
};
use vstd::prelude::*;

verus! {

/// The exponent field.
pub open spec fn exponent(bits: u32) -> int {
    (bits / 0x80_0000) as int % 256
}

/// The fraction field.
pub open spec fn fraction(bits: u32) -> int {
    bits as int % 0x80_0000
}

/// Neither an infinity nor a NaN.
pub open spec fn finite(bits: u32) -> bool {
    exponent(bits) != 255
}

pub open spec fn nan(bits: u32) -> bool {
    exponent(bits) == 255 && fraction(bits) != 0
}

/// Whether the bits are those of a finite value.
pub fn is_finite(bits: u32) -> (r: bool)
    ensures
        r == finite(bits),
{
    (bits / 0x80_0000) % 256 != 255
}

/// Whether the bits are those of a NaN.
pub fn is_nan(bits: u32) -> (r: bool)
    ensures
        r == nan(bits),
{
    (bits / 0x80_0000) % 256 == 255 && bits % 0x80_0000 != 0
}

/// The two-byte form of a value: its upper half rounded to nearest, ties to
/// even; a NaN keeps its sign and upper payload and is made quiet.
pub open spec fn narrowed(bits: u32) -> int {
    let hi = (bits / 65536) as int;
    let lo = bits as int % 65536;
    if nan(bits) {
        if (hi / 64) % 2 == 0 {
            hi + 64
        } else {
            hi
        }
    } else if lo > 0x8000 || (lo == 0x8000 && hi % 2 == 1) {
        hi + 1
    } else {
        hi
    }
}

/// The four-byte form of a two-byte value.
pub open spec fn widened(h: u16) -> u32 {
    (h * 65536) as u32
}

/// A value that the two-byte form can hold comes back exactly.
pub proof fn law_narrow_widen_round_trip(h: u16)
    requires
        !nan(widened(h)),
    ensures
        narrowed(widened(h)) == h,
{
}

/// Narrowing moves a value by at most half a step of the two-byte form, and
/// picks the even neighbour at exactly half.
pub proof fn law_narrowing_is_to_nearest_even(bits: u32)
    requires
        !nan(bits),
    ensures
        0 <= narrowed(bits) <= u16::MAX,
        -32768 <= narrowed(bits) * 65536 - bits <= 32768,
        narrowed(bits) * 65536 - bits == 32768 || narrowed(bits) * 65536 - bits == -32768
            ==> narrowed(bits) % 2 == 0,
{
}

/// Narrowing keeps NaNs and infinities what they are, and never makes a NaN or
/// turns a NaN into an infinity.
pub proof fn law_narrowing_keeps_the_class(bits: u32)
    ensures
        0 <= narrowed(bits) <= u16::MAX,
        nan(bits) <==> nan(widened(narrowed(bits) as u16)),
        exponent(bits) == 255 && fraction(bits) == 0 ==> widened(narrowed(bits) as u16) == bits,
{
}

/// Round a binary32 value, given by its bits, to the two-byte form.
pub fn f32_to_bf16(bits: u32) -> (r: u16)
    ensures
        r == narrowed(bits),
{
    let hi: u32 = bits / 65536;
    let lo: u32 = bits % 65536;
    if is_nan(bits) {
        if (hi / 64) % 2 == 0 {
            (hi + 64) as u16
        } else {
            hi as u16
        }
    } else if lo > 0x8000 || (lo == 0x8000 && hi % 2 == 1) {
        (hi + 1) as u16
    } else {
        hi as u16
    }
}

/// The bits of the binary32 value that a two-byte value stands for.
pub fn bf16_to_f32(h: u16) -> (r: u32)
    ensures
        r == widened(h),
{
    (h as u32) * 65536
}

/// `bits` is the binary32 value nearest to `1 / n`: the exponent is the one of
/// `1 / n`, and the significand times `n` is within half of `n` of the power of
/// two that it stands for. A normal value is
/// `(2^23 + fraction) * 2^(exponent - 150)`.
pub open spec fn nearest_reciprocal(bits: u32, n: int) -> bool {
    let significand = 0x80_0000 + fraction(bits);
    let scale = pow2((150 - exponent(bits)) as nat);
    &&& bits < 0x8000_0000
    &&& 0 < exponent(bits) <= 127
    &&& n <= pow2((127 - exponent(bits)) as nat) < 2 * n
    &&& -n < 2 * (significand * n - scale) < n
}

/// At most one value is nearest to `1 / n`.
pub proof fn law_nearest_reciprocal_is_unique(a: u32, b: u32, n: int)
    requires
        n >= 1,
        nearest_reciprocal(a, n),
        nearest_reciprocal(b, n),
    ensures
        a == b,
{
    let (i, j) = ((127 - exponent(a)) as nat, (127 - exponent(b)) as nat);
    if i < j {
        lemma_pow2_unfold(j);
        if i < j - 1 {
            lemma_pow2_strictly_increases(i, (j - 1) as nat);
        }
    }
    if j < i {
        lemma_pow2_unfold(i);
        if j < i - 1 {
            lemma_pow2_strictly_increases(j, (i - 1) as nat);
        }
    }
    assert(exponent(a) == exponent(b));
    let (s, t) = (fraction(a), fraction(b));
    assert(s == t) by (nonlinear_arith)
        requires
            -2 * n < 2 * ((0x80_0000 + s) * n) - 2 * ((0x80_0000 + t) * n) < 2 * n,
            n >= 1,
    ;
}

/// Every divisor of a power of two is a power of two.
proof fn lemma_power_of_two_divisor(n: int, x: int, j: nat)
    requires
        n >= 1,
        x >= 1,
        n * x == pow2(j),
    ensures
        exists|i: nat| n == #[trigger] pow2(i),
    decreases j,
{
    lemma2_to64();
    if j == 0 {
        assert(n == 1) by (nonlinear_arith)
            requires
                n >= 1,
                x >= 1,
                n * x == 1,
        ;
        assert(n == pow2(0));
    } else {
        lemma_pow2_unfold(j);
        let half = pow2((j - 1) as nat) as int;
        if n % 2 == 0 {
            let m = n / 2;
            assert(m * x == half) by (nonlinear_arith)
                requires
                    n == 2 * m,
                    n * x == 2 * half,
            ;
            lemma_power_of_two_divisor(m, x, (j - 1) as nat);
            let i = choose|i: nat| m == #[trigger] pow2(i);
            lemma_pow2_unfold((i + 1) as nat);
            assert(n == pow2((i + 1) as nat));
        } else {
            let (p, q) = (n / 2, x / 2);
            if x % 2 == 1 {
                assert(n * x == 2 * (2 * p * q + p + q) + 1) by (nonlinear_arith)
                    requires
                        n == 2 * p + 1,
                        x == 2 * q + 1,
                ;
                assert(false);
            }
            assert(n * q == half) by (nonlinear_arith)
                requires
                    x == 2 * q,
                    n * x == 2 * half,
            ;
            lemma_power_of_two_divisor(n, q, (j - 1) as nat);
        }
    }
}

/// No power of two lies strictly between a power of two and its double.
proof fn lemma_no_power_between(n: int, e: nat, i: nat)
    requires
        pow2(e) < n < pow2((e + 1) as nat),
    ensures
        n != pow2(i),
{
    if i < e {
        lemma_pow2_strictly_increases(i, e);
    }
    if i > e + 1 {
        lemma_pow2_strictly_increases((e + 1) as nat, i);
    }
}

/// The bits of the binary32 value nearest to `1 / n`.
pub fn reciprocal_bits(n: u32) -> (bits: u32)
    requires
        1 <= n <= 0x10_0000,
    ensures
        nearest_reciprocal(bits, n as int),
{
    let mut power: u64 = 1;
    let mut e: u32 = 0;
    proof {
        lemma2_to64();
    }
    while power * 2 <= n as u64
        invariant
            1 <= n <= 0x10_0000,
            power == pow2(e as nat),
            1 <= power <= n,
            e <= 20,
        decreases n - power,
    {
        proof {
            lemma_pow2_unfold((e + 1) as nat);
            assert(e < 20) by {
                lemma2_to64();
                if e == 20 {
                    assert(power == 0x10_0000);
                }
            }
        }
        power = power * 2;
        e += 1;
    }
    if power == n as u64 {
        // an exact power of two
        let bits: u32 = (127 - e) * 0x80_0000;
        proof {
            assert(bits / 0x80_0000 == 127 - e);
            assert(exponent(bits) == 127 - e);
            assert(fraction(bits) == 0);
            lemma_pow2_adds(23, e as nat);
            lemma2_to64();
            assert(0x80_0000 * n == pow2((23 + e) as nat));
        }
        bits
    } else {
        let scale: u64 = 0x100_0000 * power;
        let twice: u64 = 2 * scale + n as u64;
        let m: u64 = twice / (2 * (n as u64));
        proof {
            let q = m as int;
            let d = 2 * n as int;
            vstd::arithmetic::div_mod::lemma_fundamental_div_mod(twice as int, d);
            let rem = twice as int % d;
            assert(twice == d * q + rem && 0 <= rem < d);
            assert(2 * (q * n) == d * q) by (nonlinear_arith)
                requires
                    d == 2 * n as int,
            ;
            lemma_pow2_unfold((e + 1) as nat);
            lemma_pow2_adds(25, e as nat);
            lemma2_to64();
            if rem == 0 {
                assert(n * (2 * q - 1) == 2 * scale) by (nonlinear_arith)
                    requires
                        2 * (q * n) == 2 * scale + n,
                ;
                assert(2 * scale == pow2((25 + e) as nat));
                assert(2 * q - 1 >= 1) by (nonlinear_arith)
                    requires
                        n * (2 * q - 1) == 2 * scale,
                        scale > 0,
                        n >= 1,
                ;
                lemma_power_of_two_divisor(n as int, 2 * q - 1, (25 + e) as nat);
                let i = choose|i: nat| n == #[trigger] pow2(i);
                lemma_no_power_between(n as int, e as nat, i);
            }
            assert(-n < 2 * (q * n - scale) < n);
            assert(q >= 0x80_0000) by (nonlinear_arith)
                requires
                    2 * (q * n - scale) >= -n,
                    scale == 0x100_0000 * power,
                    2 * power > n,
                    n >= 1,
            ;
            assert(q < 0x100_0000) by (nonlinear_arith)
                requires
                    2 * (q * n - scale) <= n,
                    scale == 0x100_0000 * power,
                    power + 1 <= n,
                    n <= 0x10_0000,
            ;
        }
        let bits: u32 = (126 - e) * 0x80_0000 + (m as u32 - 0x80_0000);
        proof {
            assert(bits / 0x80_0000 == 126 - e);
            assert(exponent(bits) == 126 - e);
            assert(fraction(bits) == m - 0x80_0000);
            lemma_pow2_adds(24, e as nat);
            lemma2_to64();
            assert(scale == pow2((24 + e) as nat));
        }
        bits
    }
}

/// A value is its sign, its exponent and its fraction, from the top bit down; it
/// is finite unless every exponent bit is set, and then a NaN unless the fraction
/// is zero.
pub proof fn law_classes_follow_the_fields(bits: u32)
    ensures
        0 <= exponent(bits) < 256,
        0 <= fraction(bits) < 0x80_0000,
        bits == (if bits >= 0x8000_0000 {
            0x8000_0000
        } else {
            0int
        }) + exponent(bits) * 0x80_0000 + fraction(bits),
        finite(bits) <==> bits % 0x8000_0000 < 0x7f80_0000,
        nan(bits) <==> bits % 0x8000_0000 > 0x7f80_0000,
{
}

/// A two-byte value stands for the value whose upper half it is.
pub proof fn law_widening_appends_zeros(h: u16)
    ensures
        widened(h) == 65536 * h,
        widened(h) % 65536 == 0,
{
}

/// Narrowing a NaN keeps its sign, its exponent and its upper payload, and sets
/// the bit that makes it quiet.
pub proof fn law_narrowing_quiets_a_nan(bits: u32)
    requires
        nan(bits),
    ensures
        (narrowed(bits) / 64) % 2 == 1,
        narrowed(bits) / 128 == bits / 0x80_0000,
        narrowed(bits) % 64 == (bits / 65536) % 64,
{
}

/// The value nearest to `1 / n` times `n` is one to within half a step of it: with
/// `v = (2^23 + fraction) * 2^(exponent - 150)`, twice the distance of `n * v`
/// from one is less than `n` steps.
pub proof fn law_reciprocal_is_nearest(bits: u32, n: int)
    requires
        n >= 1,
        nearest_reciprocal(bits, n),
    ensures
        ({
            let e = (bits / 0x80_0000) as int;
            let significand = 0x80_0000 + bits % 0x80_0000;
            &&& 0 < e <= 127
            &&& -n < 2 * (significand * n - pow2((150 - e) as nat)) < n
        }),
{
}

} // verus!
