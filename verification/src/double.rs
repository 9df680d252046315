//! Double-precision rounding, in whole numbers.
//!
//! Byte counts and percentages are shown as a double-precision computation
//! gives them. A double has 53 significant bits; every operation rounds to the
//! nearest one, to the even one of two that are equally near.

use vstd::arithmetic::power2::{
    lemma_pow2_pos, lemma_pow2_strictly_increases, lemma_pow2_unfold, pow2,
};
use vstd::prelude::*;

pub mod laws;

verus! {

/// The whole number nearest to `p / q`, the even one of two.
pub open spec fn half_even(p: int, q: int) -> int {
    let f = p / q;
    let r = p % q;
    if 2 * r < q || (2 * r == q && f % 2 == 0) {
        f
    } else {
        f + 1
    }
}

/// The whole number nearest to `p / q`, the even one of two.
pub fn round_half_even(p: u128, q: u128) -> (r: u128)
    requires
        0 < q,
        p < 0x8000_0000_0000_0000_0000_0000_0000_0000,
    ensures
        r == half_even(p as int, q as int),
        r <= p / q + 1,
{
    let f: u128 = p / q;
    let rest: u128 = p % q;
    proof {
        assert(f <= p) by (nonlinear_arith)
            requires
                f == p / q,
                q >= 1,
        ;
    }
    if rest < q - rest || (rest == q - rest && f % 2 == 0) {
        f
    } else {
        f + 1
    }
}

/// By how much a whole number is coarser than 53 bits: the power of two below
/// which a double cannot tell it from its neighbours.
pub open spec fn ulp(n: nat) -> nat
    decreases n,
{
    if n < 0x20_0000_0000_0000 {
        1
    } else {
        2 * ulp(n / 2)
    }
}

/// The double nearest to a whole number.
pub open spec fn as_double(n: nat) -> int {
    half_even(n as int, ulp(n) as int) * ulp(n)
}

/// The double nearest to `n`.
pub fn to_double(n: u64) -> (d: u128)
    ensures
        d == as_double(n as nat),
        d < 0x2_0000_0000_0000_0000,
        n < 0x20_0000_0000_0000 ==> d == n,
        n > 0 ==> d > 0,
{
    let mut unit: u128 = 1;
    let mut top: u64 = n;
    proof {
        assert(n as nat * 1 == n);
    }
    while top >= 0x20_0000_0000_0000
        invariant
            unit > 0,
            unit * top <= n,
            n < unit * top + unit,
            ulp(n as nat) == unit * ulp(top as nat),
            unit > 1 ==> unit * 0x10_0000_0000_0000 <= n,
        decreases top,
    {
        let next: u64 = top / 2;
        proof {
            assert(2 * next <= top <= 2 * next + 1);
            assert(unit * 2 * next <= unit * top) by (nonlinear_arith)
                requires
                    2 * next <= top,
                    unit > 0,
            ;
            assert(unit * top <= unit * 2 * next + unit) by (nonlinear_arith)
                requires
                    top <= 2 * next + 1,
                    unit > 0,
            ;
            assert(unit * 2 * ulp(next as nat) == unit * (2 * ulp(next as nat))) by (nonlinear_arith);
            assert(unit * 2 * 0x10_0000_0000_0000 <= unit * 2 * next) by (nonlinear_arith)
                requires
                    next >= 0x10_0000_0000_0000,
                    unit > 0,
            ;
        }
        unit = unit * 2;
        top = next;
    }
    proof {
        assert(unit * ulp(top as nat) == unit) by (nonlinear_arith)
            requires
                ulp(top as nat) == 1,
        ;
    }
    let m = round_half_even(n as u128, unit);
    proof {
        let f = n as int / unit as int;
        assert(n as int / unit as int == n as u128 / unit);
        assert(f * unit <= n && n < f * unit + unit) by (nonlinear_arith)
            requires
                f == n as int / unit as int,
                unit > 0,
        ;
        assert(m * unit <= (f + 1) * unit) by (nonlinear_arith)
            requires
                m <= f + 1,
                unit > 0,
        ;
        assert((f + 1) * unit == f * unit + unit) by (nonlinear_arith);
        if unit == 1 {
            assert(f == n);
            assert(n as int % 1 == 0);
            assert(m == n);
            assert(m * 1 == n);
        }
    }
    m * unit
}

/// A share `p / q` in percent, as double arithmetic computes
/// `p / q * 100`, for `p / q` between 1/512 and 10. It is the fraction
/// `.0 / pow2(.1)`.
pub open spec fn percent_of(p: int, q: int) -> (int, nat) {
    let s = share_scale(p, q, 49);
    let m = half_even(p * pow2(s), q);
    let t: nat = if 100 * m < 0x800_0000_0000_0000 {
        6
    } else {
        7
    };
    (half_even(100 * m, pow2(t) as int), (s - t) as nat)
}

/// The least scale from `s` on that gives `p / q` at least 53 bits.
pub open spec fn share_scale(p: int, q: int, s: nat) -> nat
    decreases 62 - s,
{
    if s >= 62 || p * pow2(s) >= q * 0x10_0000_0000_0000 {
        s
    } else {
        share_scale(p, q, s + 1)
    }
}

/// What a share of `used` in `quota` is shown as: whole percent, at most 999,
/// none of an empty quota.
pub open spec fn shown_percent(used: nat, quota: nat) -> int {
    let p = as_double(used);
    let q = as_double(quota);
    if quota == 0 || p * 512 < q {
        0
    } else if p >= 10 * q {
        999
    } else {
        let (v, s) = percent_of(p, q);
        if v >= 999 * pow2(s) {
            999
        } else {
            half_even(v, pow2(s) as int)
        }
    }
}

/// Whether `used` is at least ninety percent of `quota`.
pub open spec fn nearly_full(used: nat, quota: nat) -> bool {
    let p = as_double(used);
    let q = as_double(quota);
    if quota == 0 || p * 512 < q {
        false
    } else if p >= 10 * q {
        true
    } else {
        let (v, s) = percent_of(p, q);
        v >= 90 * pow2(s)
    }
}

/// What a share of `used` in `quota` is shown as, and whether it is at least
/// ninety percent.
pub fn storage_percent(used: u64, quota: u64) -> (r: (u64, bool))
    ensures
        r.0 == shown_percent(used as nat, quota as nat),
        r.1 == nearly_full(used as nat, quota as nat),
        r.0 <= 999,
{
    let p = to_double(used);
    let q = to_double(quota);
    if quota == 0 || p * 512 < q {
        return (0, false);
    }
    if p >= 10 * q {
        return (999, true);
    }
    let mut s: u32 = 49;
    let mut unit: u128 = 0x2_0000_0000_0000;
    proof {
        lemma_small_powers();
    }
    while s < 62 && p * unit < q * 0x10_0000_0000_0000
        invariant
            49 <= s <= 62,
            unit == pow2(s as nat),
            0x2_0000_0000_0000 <= unit <= 0x4000_0000_0000_0000,
            unit < 0x4000_0000_0000_0000 || s == 62,
            p < 0x2_0000_0000_0000_0000,
            0 < q < 0x2_0000_0000_0000_0000,
            share_scale(p as int, q as int, 49) == share_scale(p as int, q as int, s as nat),
            pow2(62) == 0x4000_0000_0000_0000,
            p * unit < 0x8000_0000_0000_0000_0000_0000_0000_0000,
            s > 49 ==> p * unit < 2 * q * 0x10_0000_0000_0000,
        decreases 62 - s,
    {
        proof {
            lemma_pow2_unfold((s + 1) as nat);
            if s + 1 < 62 {
                lemma_pow2_strictly_increases((s + 1) as nat, 62);
            }
            assert(p * (2 * unit) == 2 * (p * unit)) by (nonlinear_arith);
            assert(p * (2 * unit) < 0x8000_0000_0000_0000_0000_0000_0000_0000) by (nonlinear_arith)
                requires
                    p < 0x2_0000_0000_0000_0000,
                    2 * unit <= 0x4000_0000_0000_0000,
                    unit > 0,
            ;
        }
        unit = unit * 2;
        s += 1;
    }
    let ghost scale = s as nat;
    let m = round_half_even(p * unit, q);
    proof {
        if s == 49 {
            assert(p * unit < 10 * q * 0x2_0000_0000_0000) by (nonlinear_arith)
                requires
                    p < 10 * q,
                    unit == 0x2_0000_0000_0000,
            ;
        }
        assert(p * unit < q * 0x20_0000_0000_0000);
        assert((p * unit) as int / q as int <= 0x20_0000_0000_0000) by (nonlinear_arith)
            requires
                p * unit < q * 0x20_0000_0000_0000,
                q > 0,
        ;
        assert(m <= 0x20_0000_0000_0001);
    }
    let (fine, t): (u128, u32) = if 100 * m < 0x800_0000_0000_0000 {
        (64, 6)
    } else {
        (128, 7)
    };
    let v = round_half_even(100 * m, fine);
    let one: u128 = unit / fine;
    proof {
        vstd::arithmetic::power2::lemma_pow2_adds((scale - t) as nat, t as nat);
        lemma_pow2_pos((scale - t) as nat);
        let lower = pow2((scale - t) as nat);
        assert(unit == lower * fine);
        assert(one == lower) by (nonlinear_arith)
            requires
                unit == lower * fine,
                one == unit / fine,
                fine > 0,
        ;
        assert(percent_of(p as int, q as int) == (v as int, (scale - t) as nat));
    }
    let full = v >= 90 * one;
    if v >= 999 * one {
        return (999, full);
    }
    let shown = round_half_even(v, one);
    proof {
        assert(v as int / one as int <= 998) by (nonlinear_arith)
            requires
                v < 999 * one,
                one > 0,
        ;
    }
    (shown as u64, full)
}

proof fn lemma_small_powers()
    ensures
        pow2(6) == 64,
        pow2(7) == 128,
        pow2(49) == 0x2_0000_0000_0000,
        pow2(62) == 0x4000_0000_0000_0000,
{
    vstd::arithmetic::power2::lemma2_to64();
    vstd::arithmetic::power2::lemma2_to64_rest();
}

} // verus!
