//! Device timestamps into intervals, and intervals into the totals of a batch.

use crate::error::{AckError, Failure};
use vstd::arithmetic::div_mod::lemma_mod_mod;
use vstd::arithmetic::power2::{
    lemma2_to64, lemma2_to64_rest, lemma_pow2_adds, lemma_pow2_pos, pow2,
};
use vstd::bits::lemma_u64_low_bits_mask_is_mod;
use vstd::prelude::*;
use vstd::string::*;

verus! {

/// The ticks from one stamp to another on a counter that is so many bits wide
/// and wraps there.
pub open spec fn ticks_between(t0: u64, t1: u64, valid_bits: u32) -> int {
    (t1 - t0) % (pow2(if valid_bits >= 64 {
        64
    } else {
        valid_bits as nat
    }) as int)
}

proof fn lemma_low_bits(d: u64, bits: u32)
    requires
        bits < 64,
    ensures
        (1u64 << bits) >= 1,
        (d & ((1u64 << bits) - 1) as u64) == d % (pow2(bits as nat) as u64),
        pow2(bits as nat) <= u64::MAX,
{
    lemma_u64_low_bits_mask_is_mod(d, bits as nat);
    lemma_pow2_pos(bits as nat);
    lemma2_to64();
    lemma2_to64_rest();
    vstd::arithmetic::power2::lemma_pow2_strictly_increases(bits as nat, 64);
    vstd::bits::lemma_u64_shl_is_mul(1, bits as u64);
}

/// Two device timestamps into a number of ticks. One wrap of a counter
/// narrower than 64 bits is resolved; a span that the host clock says may hold
/// more than one is refused with the text handed in.
pub fn resolve_timestamps(t0: u64, t1: u64, valid_bits: u32, beyond_period: Option<&str>) -> (r:
    Result<u64, AckError>)
    ensures
        match r {
            Ok(ticks) => ticks == ticks_between(t0, t1, valid_bits) && (valid_bits >= 64
                || beyond_period is None),
            Err(e) => valid_bits < 64 && beyond_period is Some && e@ == Failure::AmbiguousTiming(
                beyond_period->0@,
            ),
        },
{
    let delta: u64 = t1.wrapping_sub(t0);
    proof {
        lemma2_to64();
        lemma2_to64_rest();
        assert(delta == (t1 - t0) % 0x1_0000_0000_0000_0000) by (nonlinear_arith)
            requires
                delta == (if t1 - t0 < 0 {
                    t1 - t0 + 0x1_0000_0000_0000_0000
                } else {
                    t1 - t0
                }),
                -0x1_0000_0000_0000_0000 < t1 - t0 < 0x1_0000_0000_0000_0000,
        ;
    }
    if valid_bits >= 64 {
        return Ok(delta);
    }
    if let Some(why) = beyond_period {
        return Err(AckError::AmbiguousTiming(String::from_str(why)));
    }
    proof {
        lemma_low_bits(delta, valid_bits);
        let small = pow2(valid_bits as nat) as int;
        let rest = pow2((64 - valid_bits) as nat) as int;
        lemma_pow2_adds(valid_bits as nat, (64 - valid_bits) as nat);
        lemma_pow2_pos(valid_bits as nat);
        lemma_pow2_pos((64 - valid_bits) as nat);
        lemma_mod_mod(t1 - t0, small, rest);
    }
    let period_ticks: u64 = 1u64 << valid_bits;
    Ok(delta & (period_ticks - 1))
}

/// The ticks between adjacent stamps.
pub open spec fn intervals(ticks: Seq<u64>, valid_bits: u32) -> Seq<u64> {
    Seq::new(
        if ticks.len() == 0 {
            0
        } else {
            (ticks.len() - 1) as nat
        },
        |i: int| ticks_between(ticks[i], ticks[i + 1], valid_bits) as u64,
    )
}

/// The intervals between the stamps of a batch, accepted together: where one
/// cannot be resolved, none is.
pub fn stamp_intervals(ticks: &[u64], valid_bits: u32, beyond_period: Option<&str>) -> (r: Result<
    Vec<u64>,
    AckError,
>)
    ensures
        match r {
            Ok(v) => v@ == intervals(ticks@, valid_bits) && (valid_bits >= 64 || beyond_period
                is None || ticks@.len() < 2),
            Err(e) => ticks@.len() >= 2 && valid_bits < 64 && beyond_period is Some && e@
                == Failure::AmbiguousTiming(beyond_period->0@),
        },
{
    let mut out: Vec<u64> = Vec::new();
    let mut i: usize = 1;
    while i < ticks.len()
        invariant
            1 <= i,
            ticks@.len() > 0 ==> i <= ticks.len(),
            ticks@.len() == 0 ==> i == 1,
            out@.len() == i - 1,
            forall|j: int|
                0 <= j < i - 1 ==> #[trigger] out@[j] == ticks_between(
                    ticks@[j],
                    ticks@[j + 1],
                    valid_bits,
                ),
            i > 1 ==> valid_bits >= 64 || beyond_period is None,
        decreases ticks.len() - i,
    {
        match resolve_timestamps(ticks[i - 1], ticks[i], valid_bits, beyond_period) {
            Ok(t) => {
                out.push(t);
            },
            Err(e) => {
                return Err(e);
            },
        }
        i += 1;
    }
    proof {
        let want = intervals(ticks@, valid_bits);
        assert(out@.len() == want.len());
        assert forall|j: int| 0 <= j < out@.len() implies out@[j] == want[j] by {
            assert(out@[j] == ticks_between(ticks@[j], ticks@[j + 1], valid_bits));
        }
        assert(out@ =~= want);
    }
    Ok(out)
}

/// The sum of a row of intervals, at most the largest number there is.
pub open spec fn total(ns: Seq<u64>) -> u64
    decreases ns.len(),
{
    if ns.len() == 0 {
        0
    } else {
        total(ns.drop_last()).saturating_add(ns.last())
    }
}

/// The shortest of a row of intervals.
pub open spec fn shortest(ns: Seq<u64>) -> u64
    decreases ns.len(),
{
    if ns.len() == 0 {
        u64::MAX
    } else if ns.last() < shortest(ns.drop_last()) {
        ns.last()
    } else {
        shortest(ns.drop_last())
    }
}

/// The longest of a row of intervals.
pub open spec fn longest(ns: Seq<u64>) -> u64
    decreases ns.len(),
{
    if ns.len() == 0 {
        0
    } else if ns.last() > longest(ns.drop_last()) {
        ns.last()
    } else {
        longest(ns.drop_last())
    }
}

/// Every interval lies between the shortest and the longest, and none is longer
/// than their sum.
pub proof fn law_extremes_bound_every_interval(ns: Seq<u64>, i: int)
    requires
        0 <= i < ns.len(),
    ensures
        shortest(ns) <= ns[i] <= longest(ns),
        longest(ns) <= total(ns),
    decreases ns.len(),
{
    let rest = ns.drop_last();
    if i < rest.len() {
        law_extremes_bound_every_interval(rest, i);
    } else if rest.len() > 0 {
        law_extremes_bound_every_interval(rest, 0);
    }
}

/// The sum, the shortest and the longest of a batch's intervals in nanoseconds.
pub fn summarize_dispatch_timestamps(ns: &[u64]) -> (r: (u64, u64, u64))
    ensures
        r == (total(ns@), shortest(ns@), longest(ns@)),
{
    let mut sum: u64 = 0;
    let mut min: u64 = u64::MAX;
    let mut max: u64 = 0;
    let mut i: usize = 0;
    proof {
        assert(ns@.take(0) =~= Seq::<u64>::empty());
    }
    while i < ns.len()
        invariant
            i <= ns.len(),
            sum == total(ns@.take(i as int)),
            min == shortest(ns@.take(i as int)),
            max == longest(ns@.take(i as int)),
        decreases ns.len() - i,
    {
        proof {
            assert(ns@.take(i + 1).drop_last() =~= ns@.take(i as int));
            assert(ns@.take(i + 1).last() == ns@[i as int]);
        }
        sum = sum.saturating_add(ns[i]);
        if ns[i] < min {
            min = ns[i];
        }
        if ns[i] > max {
            max = ns[i];
        }
        i += 1;
    }
    proof {
        assert(ns@.take(i as int) =~= ns@);
    }
    (sum, min, max)
}

/// The ticks between two stamps lead from the first to the second on a counter
/// that wraps at its width, and are fewer than it counts; where nothing wrapped
/// they are the difference.
pub proof fn law_ticks_lead_from_stamp_to_stamp(t0: u64, t1: u64, valid_bits: u32)
    ensures
        ({
            let period = pow2(if valid_bits >= 64 {
                64
            } else {
                valid_bits as nat
            }) as int;
            let ticks = ticks_between(t0, t1, valid_bits);
            &&& 0 <= ticks < period
            &&& (t0 + ticks - t1) % period == 0
            &&& t0 <= t1 && t1 - t0 < period ==> ticks == t1 - t0
        }),
{
    let bits = if valid_bits >= 64 {
        64nat
    } else {
        valid_bits as nat
    };
    let period = pow2(bits) as int;
    lemma_pow2_pos(bits);
    let d = t1 - t0;
    vstd::arithmetic::div_mod::lemma_fundamental_div_mod(d, period);
    vstd::arithmetic::div_mod::lemma_mod_bound(d, period);
    let q = d / period;
    assert(d % period - d == (-q) * period) by (nonlinear_arith)
        requires
            d == period * q + d % period,
    ;
    vstd::arithmetic::div_mod::lemma_mod_multiples_basic(-q, period);
    if 0 <= d < period {
        vstd::arithmetic::div_mod::lemma_small_mod(d as nat, period as nat);
    }
}

/// A batch of stamps has one interval fewer than stamps, from each to the next.
pub proof fn law_intervals_join_adjacent_stamps(ticks: Seq<u64>, valid_bits: u32, i: int)
    requires
        0 <= i < ticks.len() - 1,
    ensures
        intervals(ticks, valid_bits).len() == ticks.len() - 1,
        intervals(ticks, valid_bits)[i] == ticks_between(ticks[i], ticks[i + 1], valid_bits),
{
    law_ticks_lead_from_stamp_to_stamp(ticks[i], ticks[i + 1], valid_bits);
    lemma2_to64();
    lemma2_to64_rest();
    if valid_bits < 64 {
        vstd::arithmetic::power2::lemma_pow2_strictly_increases(valid_bits as nat, 64);
    }
}

/// The total is the sum of the intervals, or the largest number where the sum is
/// beyond it.
pub proof fn law_total_is_the_sum(ns: Seq<u64>)
    ensures
        ({
            let sum = ns.fold_left(0int, |a: int, n: u64| a + n);
            &&& sum >= 0
            &&& total(ns) == if sum > 0xffff_ffff_ffff_ffff {
                0xffff_ffff_ffff_ffff
            } else {
                sum
            }
        }),
    decreases ns.len(),
{
    reveal(Seq::fold_left);
    if ns.len() > 0 {
        law_total_is_the_sum(ns.drop_last());
    }
}

/// The shortest and the longest are among the intervals; of none they are the
/// largest number and zero.
pub proof fn law_extremes_are_intervals(ns: Seq<u64>)
    ensures
        ns.len() > 0 ==> ns.contains(shortest(ns)) && ns.contains(longest(ns)),
        ns.len() == 0 ==> shortest(ns) == 0xffff_ffff_ffff_ffff && longest(ns) == 0,
    decreases ns.len(),
{
    if ns.len() > 0 {
        let rest = ns.drop_last();
        law_extremes_are_intervals(rest);
        assert(ns[ns.len() - 1] == ns.last());
        if rest.len() > 0 {
            let i = choose|i: int| 0 <= i < rest.len() && rest[i] == shortest(rest);
            let j = choose|j: int| 0 <= j < rest.len() && rest[j] == longest(rest);
            assert(ns[i] == shortest(rest) && ns[j] == longest(rest));
        }
    }
}

} // verus!
