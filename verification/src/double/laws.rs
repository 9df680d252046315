//! What holds of rounding and of percentages.

use vstd::arithmetic::power2::{lemma_pow2_adds, lemma_pow2_pos, pow2};
use vstd::prelude::*;

use crate::double::{as_double, half_even, nearly_full, percent_of, share_scale, shown_percent, ulp};

verus! {

/// Rounding goes to the nearest whole number, and to the even one of two that
/// are equally near.
pub proof fn law_rounding_goes_to_the_nearest(p: int, q: int)
    requires
        q > 0,
    ensures
        -q <= 2 * (q * half_even(p, q) - p) <= q,
        2 * (q * half_even(p, q) - p) == q || 2 * (q * half_even(p, q) - p) == -q ==> half_even(
            p,
            q,
        ) % 2 == 0,
{
    let f = p / q;
    let r = p % q;
    assert(p == q * f + r && 0 <= r < q) by (nonlinear_arith)
        requires
            q > 0,
            f == p / q,
            r == p % q,
    ;
    assert(q * (f + 1) == q * f + q) by (nonlinear_arith);
}

proof fn lemma_ulp(n: nat)
    ensures
        ulp(n) >= 1,
        n < 0x20_0000_0000_0000 ==> ulp(n) == 1,
        n >= 0x20_0000_0000_0000 ==> ulp(n) * 0x10_0000_0000_0000 <= n,
    decreases n,
{
    if n >= 0x20_0000_0000_0000 {
        lemma_ulp(n / 2);
    }
}

/// A number that a double can hold stays as it is, and any other is off by no
/// more than its 2^53rd part.
pub proof fn law_doubles_are_close(n: nat)
    ensures
        n < 0x20_0000_0000_0000 ==> as_double(n) == n,
        -n <= (as_double(n) - n) * 0x20_0000_0000_0000 <= n,
        n > 0 ==> as_double(n) > 0,
{
    lemma_ulp(n);
    let u = ulp(n) as int;
    law_rounding_goes_to_the_nearest(n as int, u);
    let h = half_even(n as int, u);
    assert(as_double(n) == u * h) by (nonlinear_arith)
        requires
            as_double(n) == h * u,
    ;
    if u == 1 {
        assert(1 * h == h);
    }
}

proof fn lemma_share_scale(p: int, q: int, s: nat)
    requires
        s <= 62,
    ensures
        s <= share_scale(p, q, s) <= 62,
    decreases 62 - s,
{
    if !(s >= 62 || p * pow2(s) >= q * 0x10_0000_0000_0000) {
        lemma_share_scale(p, q, s + 1);
    }
}

/// How far the percentage of `p` in `q` is from its rounded form.
proof fn lemma_percent(p: int, q: int)
    requires
        0 <= p,
        0 < q,
    ensures
        ({
            let (v, s) = percent_of(p, q);
            let big = pow2(s) as int;
            &&& big > 0
            &&& v >= 90 * big ==> 1000 * p >= 899 * q
            &&& v < 90 * big ==> 1000 * p <= 901 * q
            &&& v >= 999 * big ==> 1000 * p >= 9989 * q
            &&& 10 * (half_even(v, big) * q - 100 * p) <= 6 * q
            &&& 10 * (half_even(v, big) * q - 100 * p) >= -6 * q
        }),
{
    let s = share_scale(p, q, 49);
    lemma_share_scale(p, q, 49);
    let m = half_even(p * pow2(s), q);
    let t: nat = if 100 * m < 0x800_0000_0000_0000 {
        6
    } else {
        7
    };
    let n = (s - t) as nat;
    let (v, _) = percent_of(p, q);
    vstd::arithmetic::power2::lemma2_to64();
    vstd::arithmetic::power2::lemma2_to64_rest();
    lemma_pow2_adds(t, n);
    lemma_pow2_pos(n);
    lemma_pow2_pos(s);
    if s > 49 {
        vstd::arithmetic::power2::lemma_pow2_strictly_increases(49, s);
    }
    let bp = pow2(s) as int;
    let bt = pow2(t) as int;
    let bu = pow2(n) as int;
    assert(bp == bt * bu);
    assert(bp >= 0x2_0000_0000_0000);
    assert(bt <= 128);
    law_rounding_goes_to_the_nearest(p * bp, q);
    law_rounding_goes_to_the_nearest(100 * m, bt);
    law_rounding_goes_to_the_nearest(v, bu);
    let r = half_even(v, bu);
    let pr = bp * r;
    let tv = bt * v;
    let qm = q * m;
    let pp = p * bp;
    assert(-bp <= 2 * (pr - tv) <= bp) by (nonlinear_arith)
        requires
            bp == bt * bu,
            pr == bp * r,
            tv == bt * v,
            bt > 0,
            -bu <= 2 * (bu * r - v) <= bu,
    ;
    assert(-bt <= 2 * (tv - 100 * m) <= bt);
    assert(-(bp + 128) <= 2 * (pr - 100 * m) <= bp + 128);
    let prq = pr * q;
    let bq = bp * q;
    assert(-(bq + 128 * q) <= 2 * (prq - 100 * qm) <= bq + 128 * q) by (nonlinear_arith)
        requires
            prq == pr * q,
            qm == q * m,
            bq == bp * q,
            q > 0,
            -(bp + 128) <= 2 * (pr - 100 * m) <= bp + 128,
    ;
    assert(-q <= 2 * (qm - pp) <= q);
    assert(-(bq + 228 * q) <= 2 * (prq - 100 * pp) <= bq + 228 * q);
    assert(2280 * q <= bq) by (nonlinear_arith)
        requires
            bq == bp * q,
            bp >= 2280,
            q > 0,
    ;
    let d = r * q - 100 * p;
    assert(prq - 100 * pp == bp * d) by (nonlinear_arith)
        requires
            prq == pr * q,
            pr == bp * r,
            pp == p * bp,
            d == r * q - 100 * p,
    ;
    assert(-11 * bq <= 20 * (bp * d) <= 11 * bq);
    assert(-11 * q <= 20 * d <= 11 * q) by (nonlinear_arith)
        requires
            -11 * bq <= 20 * (bp * d) <= 11 * bq,
            bq == bp * q,
            bp > 0,
    ;
    if v >= 90 * bu {
        lemma_at_least(p, q, m, v, bp, bt, bu, 90);
        assert(1000 * p >= 899 * q) by (nonlinear_arith)
            requires
                100 * (p * bp) >= 90 * (bp * q) - 114 * q,
                bp >= 1140,
                q > 0,
        ;
    } else {
        assert(tv <= 90 * bp) by (nonlinear_arith)
            requires
                tv == bt * v,
                v < 90 * bu,
                bp == bt * bu,
                bt > 0,
        ;
        assert(100 * m <= 90 * bp + 64);
        assert(100 * qm <= 90 * bq + 64 * q) by (nonlinear_arith)
            requires
                100 * m <= 90 * bp + 64,
                qm == q * m,
                bq == bp * q,
                q > 0,
        ;
        assert(100 * pp <= 90 * bq + 114 * q);
        assert(1000 * p <= 901 * q) by (nonlinear_arith)
            requires
                100 * pp <= 90 * bq + 114 * q,
                pp == p * bp,
                bq == bp * q,
                bp >= 1140,
                q > 0,
        ;
    }
    if v >= 999 * bu {
        lemma_at_least(p, q, m, v, bp, bt, bu, 999);
        assert(1000 * p >= 9989 * q) by (nonlinear_arith)
            requires
                100 * (p * bp) >= 999 * (bp * q) - 114 * q,
                bp >= 1140,
                q > 0,
        ;
    }
}

proof fn lemma_at_least(p: int, q: int, m: int, v: int, bp: int, bt: int, bu: int, k: int)
    requires
        q > 0,
        0 < bt <= 128,
        bp == bt * bu,
        v >= k * bu,
        -bt <= 2 * (bt * v - 100 * m) <= bt,
        -q <= 2 * (q * m - p * bp) <= q,
    ensures
        100 * (p * bp) >= k * (bp * q) - 114 * q,
{
    let tv = bt * v;
    let qm = q * m;
    let bq = bp * q;
    assert(tv >= k * bp) by (nonlinear_arith)
        requires
            tv == bt * v,
            v >= k * bu,
            bp == bt * bu,
            bt > 0,
    ;
    assert(100 * m >= k * bp - 64);
    assert(100 * qm >= k * bq - 64 * q) by (nonlinear_arith)
        requires
            100 * m >= k * bp - 64,
            qm == q * m,
            bq == bp * q,
            q > 0,
    ;
}

/// The percentage that is shown is the nearest whole number, or the next where
/// two are almost equally near, and never more than 999; nothing has a share of
/// no room at all.
pub proof fn law_percentages_are_rounded(used: nat, quota: nat)
    ensures
        0 <= shown_percent(used, quota) <= 999,
        quota == 0 ==> shown_percent(used, quota) == 0,
        quota > 0 ==> {
            let p = as_double(used);
            let q = as_double(quota);
            let r = shown_percent(used, quota);
            &&& 10 * (r * q - 100 * p) <= 6 * q
            &&& r < 999 ==> 10 * (r * q - 100 * p) >= -6 * q
        },
{
    let p = as_double(used);
    let q = as_double(quota);
    law_doubles_are_close(used);
    law_doubles_are_close(quota);
    if quota == 0 {
    } else if p * 512 < q {
        assert(0 * q == 0);
    } else if p >= 10 * q {
        let r = shown_percent(used, quota);
        assert(r * q == 999 * q) by (nonlinear_arith)
            requires
                r == 999,
        ;
    } else {
        lemma_percent(p, q);
        let (v, s) = percent_of(p, q);
        let big = pow2(s) as int;
        law_rounding_goes_to_the_nearest(v, big);
        let r = half_even(v, big);
        if v >= 999 * big {
            let most = shown_percent(used, quota);
            assert(most * q == 999 * q) by (nonlinear_arith)
                requires
                    most == 999,
            ;
        } else {
            assert(r <= 999) by (nonlinear_arith)
                requires
                    2 * (big * r - v) <= big,
                    v < 999 * big,
                    big > 0,
            ;
        }
        assert(r >= 0) by (nonlinear_arith)
            requires
                10 * (r * q - 100 * p) >= -6 * q,
                p >= 0,
                q > 0,
                p * 512 >= q,
        ;
    }
}

/// Storage is nearly full from nine tenths on.
pub proof fn law_storage_is_nearly_full_from_nine_tenths(used: nat, quota: nat)
    ensures
        quota == 0 ==> !nearly_full(used, quota),
        quota > 0 && nearly_full(used, quota) ==> 1000 * as_double(used) >= 899 * as_double(quota),
        quota > 0 && !nearly_full(used, quota) ==> 1000 * as_double(used) <= 901 * as_double(
            quota,
        ),
{
    let p = as_double(used);
    let q = as_double(quota);
    law_doubles_are_close(used);
    law_doubles_are_close(quota);
    if quota > 0 && p * 512 >= q && p < 10 * q {
        lemma_percent(p, q);
    }
}

/// At exactly nine tenths storage is nearly full already.
pub proof fn law_nine_tenths_are_nearly_full(used: nat, quota: nat)
    requires
        10 * used == 9 * quota,
        0 < quota < 0x20_0000_0000_0000,
    ensures
        nearly_full(used, quota),
{
    law_doubles_are_close(used);
    law_doubles_are_close(quota);
    let p = used as int;
    let q = quota as int;
    vstd::arithmetic::power2::lemma2_to64();
    vstd::arithmetic::power2::lemma2_to64_rest();
    let b = pow2(53) as int;
    assert(b == 0x20_0000_0000_0000);
    assert(share_scale(p, q, 53) == 53) by {
        assert(p * b >= q * 0x10_0000_0000_0000);
    }
    assert(share_scale(p, q, 52) == 53);
    assert(share_scale(p, q, 51) == 53);
    assert(share_scale(p, q, 50) == 53);
    assert(share_scale(p, q, 49) == 53);
    let m = half_even(p * b, q);
    law_rounding_goes_to_the_nearest(p * b, q);
    assert(10 * (p * b) == 9 * (q * b)) by (nonlinear_arith)
        requires
            10 * p == 9 * q,
    ;
    assert(-5 <= 10 * m - 9 * b <= 5) by (nonlinear_arith)
        requires
            q > 0,
            10 * (p * b) == 9 * (q * b),
            -q <= 2 * (q * m - p * b) <= q,
    ;
    assert(100 * m >= 0x800_0000_0000_0000);
    let t = pow2(7) as int;
    let v = half_even(100 * m, t);
    law_rounding_goes_to_the_nearest(100 * m, t);
    assert(v == 90 * 0x4000_0000_0000);
    assert(pow2(46) == 0x4000_0000_0000);
    assert(percent_of(p, q) == (v, 46nat));
}

} // verus!
