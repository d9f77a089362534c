//! Rounded divisions that grids, word counts and allocations are sized with.

use vstd::prelude::*;

verus! {

/// The least number of pieces of size `b` that cover `a`.
pub open spec fn ceil_div(a: int, b: int) -> int {
    (a + b - 1) / b
}

/// The pieces cover the whole, and one piece fewer would not.
pub proof fn lemma_ceil_div_covers(a: int, b: int)
    requires
        a >= 0,
        b > 0,
    ensures
        ceil_div(a, b) >= 0,
        ceil_div(a, b) * b >= a,
        a > 0 ==> ceil_div(a, b) >= 1,
        a > 0 ==> (ceil_div(a, b) - 1) * b < a,
        ceil_div(a, b) <= a || a == 0,
{
    let q = ceil_div(a, b);
    let r = (a + b - 1) % b;
    vstd::arithmetic::div_mod::lemma_fundamental_div_mod(a + b - 1, b);
    assert(a + b - 1 == b * q + r && 0 <= r < b);
    assert(q * b == b * q) by (nonlinear_arith);
    assert((q - 1) * b == q * b - b) by (nonlinear_arith);
    assert(q >= 0) by (nonlinear_arith)
        requires
            q * b + r >= 0,
            q * b > -b,
            b > 0,
    ;
    if a > 0 {
        assert(q >= 1) by (nonlinear_arith)
            requires
                q * b >= a,
                a > 0,
                b > 0,
        ;
        assert(q <= a) by (nonlinear_arith)
            requires
                (q - 1) * b < a,
                a > 0,
                b >= 1,
                q >= 1,
        ;
    }
}

/// `ceil_div` on words.
pub fn div_ceil(a: u32, b: u32) -> (r: u32)
    requires
        b > 0,
    ensures
        r == ceil_div(a as int, b as int),
        r <= a,
{
    proof {
        lemma_ceil_div_covers(a as int, b as int);
        if a == 0 {
            vstd::arithmetic::div_mod::lemma_basic_div(b - 1, b as int);
        } else {
            vstd::arithmetic::div_mod::lemma_div_plus_one(a - 1, b as int);
        }
    }
    if a == 0 {
        0
    } else {
        proof {
            assert(ceil_div(a as int, b as int) == 1 + (a - 1) / (b as int));
        }
        (a - 1) / b + 1
    }
}

/// `ceil_div` on 64-bit counts.
pub fn div_ceil_u64(a: u64, b: u64) -> (r: u64)
    requires
        b > 0,
    ensures
        r == ceil_div(a as int, b as int),
        r <= a,
{
    proof {
        lemma_ceil_div_covers(a as int, b as int);
        if a == 0 {
            vstd::arithmetic::div_mod::lemma_basic_div(b - 1, b as int);
        } else {
            vstd::arithmetic::div_mod::lemma_div_plus_one(a - 1, b as int);
        }
    }
    if a == 0 {
        0
    } else {
        proof {
            assert(ceil_div(a as int, b as int) == 1 + (a - 1) / (b as int));
        }
        (a - 1) / b + 1
    }
}

} // verus!
