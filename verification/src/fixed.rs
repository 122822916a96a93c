//! The scaled-integer number model: every quantity of the library is an
//! integer holding a fixed number of fractional digits.
//!
//! Lengths, speeds and durations carry three fractional digits (`SCALE`);
//! dimensionless ratios and angles carry six (`FP`).  This module holds the
//! shared constants, the exact wide products and divisions, the integer
//! square root, and the cosine and arccosine on which the arc geometry
//! rests.

use vstd::prelude::*;

verus! {

/// Lengths (millimetres), speeds (millimetres per minute) and durations
/// (seconds) are held in thousandths.
pub const SCALE: i64 = 1000;

/// Dimensionless ratios and angles (radians) are held in millionths.
pub const FP: i64 = 1_000_000;

/// The angle pi in millionths of a radian, rounded to the nearest unit.
pub const PI_FP: i64 = 3_141_593;

/// The angle 2*pi in millionths of a radian (twice `PI_FP`, so that the
/// direction correction `2*pi - theta` maps `PI_FP` to itself).
pub const TWO_PI_FP: i64 = 2 * PI_FP;

/// Largest magnitude accepted for a parsed coordinate or feed value:
/// ten metres, in thousandths of a millimetre (or of an inch before
/// conversion).
pub const PARSE_LIMIT: i64 = 10_000_000;

/// Largest magnitude a stored coordinate or feed value can reach once units
/// are resolved: `PARSE_LIMIT` times the inch factor 25.4, exactly.
pub const VAL_LIMIT: i64 = 254_000_000;

/// Largest magnitude a component of an arc radius vector can reach: a sum
/// of three values each within `VAL_LIMIT`.
pub const VEC_LIMIT: i64 = 3 * VAL_LIMIT;

/// A duration so large no feed can undercut it: stands in for the unbounded
/// estimate a zero feed rate would give.
pub const DUR_CAP: i64 = 0x7fff_ffff_ffff_ffff;

/// Largest distance one line can contribute: a full circle of the largest
/// representable radius, with margin.
pub const DIST_CAP: i64 = 13_000_000_000;

/// The square of an integer.
pub open spec fn sq(x: int) -> int {
    x * x
}

/// The magnitude of an integer.
pub open spec fn iabs(x: int) -> int {
    if x >= 0 {
        x
    } else {
        -x
    }
}

/// Division truncated toward zero for a positive divisor, as the machine
/// performs it on signed values.
pub open spec fn div_tz(a: int, b: int) -> int
    recommends
        b > 0,
{
    if a >= 0 {
        a / b
    } else {
        -((-a) / b)
    }
}

/// The exact product of two machine words, in a wider word.
pub fn mul_wide(a: i64, b: i64) -> (r: i128)
    ensures
        r == (a as int) * (b as int),
{
    proof {
        assert(-0x4000_0000_0000_0000_0000_0000_0000_0000 <= (a as int) * (b as int)
            <= 0x4000_0000_0000_0000_0000_0000_0000_0000) by (nonlinear_arith)
            requires
                -0x8000_0000_0000_0000 <= a as int <= 0x7fff_ffff_ffff_ffff,
                -0x8000_0000_0000_0000 <= b as int <= 0x7fff_ffff_ffff_ffff,
        ;
    }
    (a as i128) * (b as i128)
}

/// The exact product of two wide words whose magnitudes stay within the
/// machine-word range.
pub fn mul_wide_128(a: i128, b: i128) -> (r: i128)
    requires
        -0x8000_0000_0000_0000 <= a <= 0x7fff_ffff_ffff_ffff,
        -0x8000_0000_0000_0000 <= b <= 0x7fff_ffff_ffff_ffff,
    ensures
        r == (a as int) * (b as int),
{
    proof {
        assert(-0x4000_0000_0000_0000_0000_0000_0000_0000 <= (a as int) * (b as int)
            <= 0x4000_0000_0000_0000_0000_0000_0000_0000) by (nonlinear_arith)
            requires
                -0x8000_0000_0000_0000 <= a as int <= 0x7fff_ffff_ffff_ffff,
                -0x8000_0000_0000_0000 <= b as int <= 0x7fff_ffff_ffff_ffff,
        ;
    }
    a * b
}

/// Floor division of a nonnegative value by a positive one, with the
/// multiplication form of its bracket.
pub fn div_pos(a: i128, b: i128) -> (r: i128)
    requires
        0 <= a,
        0 < b,
    ensures
        r == (a as int) / (b as int),
        0 <= r <= a,
        r * b <= a < (r + 1) * b,
{
    proof {
        vstd::arithmetic::div_mod::lemma_div_pos_is_pos(a as int, b as int);
        vstd::arithmetic::div_mod::lemma_div_nonincreasing(a as int, b as int);
        vstd::arithmetic::div_mod::lemma_fundamental_div_mod(a as int, b as int);
        vstd::arithmetic::div_mod::lemma_mod_division_less_than_divisor(a as int, b as int);
        let q = (a as int) / (b as int);
        let m = (a as int) % (b as int);
        assert(a as int == (b as int) * q + m);
        assert(0 <= m < b as int);
        assert((b as int) * q == q * (b as int)) by (nonlinear_arith);
        assert(q * (b as int) + (b as int) == (q + 1) * (b as int)) by (nonlinear_arith);
    }
    a / b
}

/// Division truncated toward zero, as the machine divides signed values.
pub fn div_tz_i128(a: i128, b: i128) -> (r: i128)
    requires
        0 < b,
        -0x4000_0000_0000_0000_0000_0000_0000_0000 <= a,
    ensures
        r == div_tz(a as int, b as int),
        a >= 0 ==> 0 <= r <= a,
        a < 0 ==> a <= r <= 0,
{
    if a >= 0 {
        div_pos(a, b)
    } else {
        let q = div_pos(-a, b);
        -q
    }
}

/// The integer square root: the greatest `r` with `r * r <= n`.
pub fn isqrt_u128(n: u128) -> (r: u64)
    ensures
        sq(r as int) <= n as int,
        (n as int) < sq(r as int + 1),
        r as int == sqrt_floor(n as int),
{
    let mut lo: u128 = 0;
    let mut hi: u128 = 0x1_0000_0000_0000_0000;
    assert((n as int) < sq(hi as int)) by (nonlinear_arith)
        requires
            (n as int) < 0x1_0000_0000_0000_0000_0000_0000_0000_0000,
            hi == 0x1_0000_0000_0000_0000u128,
    ;
    while hi - lo > 1
        invariant
            lo < hi,
            hi <= 0x1_0000_0000_0000_0000,
            sq(lo as int) <= n as int,
            (n as int) < sq(hi as int),
        decreases hi - lo,
    {
        let mid = lo + (hi - lo) / 2;
        assert(lo < mid < hi);
        assert(sq(mid as int) < sq(0x1_0000_0000_0000_0000 as int)) by (nonlinear_arith)
            requires
                0 <= mid < 0x1_0000_0000_0000_0000,
        ;
        let m2 = mid * mid;
        if m2 <= n {
            lo = mid;
        } else {
            hi = mid;
        }
    }
    proof {
        lemma_sqrt_floor_unique(n as int, lo as int);
    }
    lo as u64
}

/// The floor of the square root, as a specification-level function.
pub open spec fn sqrt_floor(n: int) -> int
    decreases n,
{
    if n < 1 {
        0
    } else if sq(sqrt_floor(n - 1) + 1) <= n {
        sqrt_floor(n - 1) + 1
    } else {
        sqrt_floor(n - 1)
    }
}

/// `sqrt_floor` is characterised by the usual bracket.
pub proof fn lemma_sqrt_floor(n: int)
    requires
        n >= 0,
    ensures
        0 <= sqrt_floor(n),
        sq(sqrt_floor(n)) <= n,
        n < sq(sqrt_floor(n) + 1),
    decreases n,
{
    if n == 0 {
    } else {
        lemma_sqrt_floor(n - 1);
        let r = sqrt_floor(n - 1);
        if sq(r + 1) <= n {
            assert(n == sq(r + 1));
            assert(sq(r + 1) < sq(r + 2)) by (nonlinear_arith)
                requires
                    r >= 0,
            ;
        }
    }
}

/// Only one value satisfies the bracket, so the bracket pins `sqrt_floor`.
pub proof fn lemma_sqrt_floor_unique(n: int, r: int)
    requires
        n >= 0,
        r >= 0,
        sq(r) <= n,
        n < sq(r + 1),
    ensures
        r == sqrt_floor(n),
{
    lemma_sqrt_floor(n);
    let s = sqrt_floor(n);
    assert(r == s) by (nonlinear_arith)
        requires
            r >= 0,
            s >= 0,
            r * r <= n < (r + 1) * (r + 1),
            s * s <= n < (s + 1) * (s + 1),
    ;
}

/// One term of the truncated cosine series in millionth scale: term zero is
/// one, and each further term multiplies by `x^2 / ((2k-1) * 2k)`, with every
/// division rounded down exactly as the executable code rounds.
pub open spec fn cos_term(x: int, k: nat) -> int
    decreases k,
{
    if k == 0 {
        FP as int
    } else {
        cos_term(x, (k - 1) as nat) * x / (FP as int) * x / (FP as int) / ((2 * k - 1) * (2 * k))
    }
}

/// The alternating sum of the first `n` terms of the truncated cosine
/// series.
pub open spec fn cos_partial(x: int, n: nat) -> int
    decreases n,
{
    if n == 0 {
        0
    } else {
        cos_partial(x, (n - 1) as nat) + if (n - 1) % 2 == 0 {
            cos_term(x, (n - 1) as nat)
        } else {
            -cos_term(x, (n - 1) as nat)
        }
    }
}

/// The library's cosine on `[0, pi]` in millionth scale: twelve terms of the
/// alternating series, every intermediate division rounded down.
pub open spec fn spec_cos_fp(x: int) -> int {
    cos_partial(x, 12)
}

/// A ceiling for the series terms: `FP * 8^k`, written recursively.
spec fn term_cap(k: nat) -> int
    decreases k,
{
    if k == 0 {
        FP as int
    } else {
        8 * term_cap((k - 1) as nat)
    }
}

/// The ceiling never drops below `FP`.
proof fn lemma_term_cap_positive(k: nat)
    ensures
        term_cap(k) >= FP,
    decreases k,
{
    if k > 0 {
        lemma_term_cap_positive((k - 1) as nat);
    }
}

/// The ceiling grows with its index.
proof fn lemma_term_cap_increases(a: nat, b: nat)
    requires
        a <= b,
    ensures
        term_cap(a) <= term_cap(b),
    decreases b,
{
    lemma_term_cap_positive(a);
    if a < b {
        lemma_term_cap_increases(a, (b - 1) as nat);
        lemma_term_cap_positive((b - 1) as nat);
    }
}

/// The concrete value of the largest ceiling the series ever needs.
proof fn lemma_term_cap_11()
    ensures
        term_cap(11) == 8589934592000000,
{
    reveal_with_fuel(term_cap, 13);
}

/// Each series term stays below its ceiling, and is never negative.
proof fn lemma_cos_term_bound(x: int, k: nat)
    requires
        0 <= x <= PI_FP,
    ensures
        0 <= cos_term(x, k),
        cos_term(x, k) <= term_cap(k),
    decreases k,
{
    if k == 0 {
    } else {
        lemma_cos_term_bound(x, (k - 1) as nat);
        let t = cos_term(x, (k - 1) as nat);
        let d = (2 * k - 1) * (2 * k);
        assert((2 * k - 1) * (2 * k) >= 2) by (nonlinear_arith)
            requires
                k >= 1,
        ;
        assert(0 <= t * x / (FP as int) * x / (FP as int) / d <= 8 * t) by (nonlinear_arith)
            requires
                0 <= t,
                0 <= x <= 3_141_593,
                d >= 2,
        ;
    }
}

/// Partial sums of the series stay within twice the last ceiling used.
proof fn lemma_cos_partial_bound(x: int, n: nat)
    requires
        0 <= x <= PI_FP,
        n >= 1,
    ensures
        -2 * term_cap((n - 1) as nat) <= cos_partial(x, n) <= 2 * term_cap((n - 1) as nat),
    decreases n,
{
    lemma_term_cap_positive((n - 1) as nat);
    lemma_cos_term_bound(x, (n - 1) as nat);
    if n > 1 {
        lemma_cos_partial_bound(x, (n - 1) as nat);
        lemma_term_cap_positive((n - 2) as nat);
        assert(term_cap((n - 1) as nat) == 8 * term_cap((n - 2) as nat));
        assert(-2 * term_cap((n - 2) as nat) <= cos_partial(x, (n - 1) as nat) <= 2 * term_cap(
            (n - 2) as nat,
        ));
        assert(cos_partial(x, n) == cos_partial(x, (n - 1) as nat) + if (n - 1) % 2 == 0 {
            cos_term(x, (n - 1) as nat)
        } else {
            -cos_term(x, (n - 1) as nat)
        });
    } else {
        reveal_with_fuel(cos_partial, 3);
    }
}

/// The fixed-point cosine on `[0, pi]`, computed exactly as `spec_cos_fp`
/// states it.
pub fn cos_fp(x: i64) -> (r: i64)
    requires
        0 <= x <= PI_FP,
    ensures
        r == spec_cos_fp(x as int),
{
    let xl: u128 = x as u128;
    let mut term: u128 = FP as u128;
    let mut sum: i128 = FP as i128;
    let mut k: usize = 1;
    proof {
        reveal_with_fuel(cos_partial, 3);
        assert(sum == cos_partial(x as int, 1));
    }
    while k < 12
        invariant
            1 <= k <= 12,
            0 <= x <= PI_FP,
            xl == x as int,
            term == cos_term(x as int, (k - 1) as nat),
            sum == cos_partial(x as int, k as nat),
        decreases 12 - k,
    {
        proof {
            lemma_cos_term_bound(x as int, (k - 1) as nat);
            lemma_cos_partial_bound(x as int, k as nat);
            lemma_term_cap_increases((k - 1) as nat, 11);
            lemma_term_cap_11();
            assert((2 * (k as int) - 1) * (2 * (k as int)) <= 462) by (nonlinear_arith)
                requires
                    1 <= k <= 11,
            ;
            assert((term as int) * (xl as int) <= 8589934592000000 * 3_141_593)
                by (nonlinear_arith)
                requires
                    0 <= term as int <= 8589934592000000,
                    0 <= xl as int <= 3_141_593,
            ;
        }
        let d: u128 = ((2 * k - 1) * (2 * k)) as u128;
        proof {
            assert((2 * (k as int) - 1) * (2 * (k as int)) >= 2) by (nonlinear_arith)
                requires
                    1 <= k,
            ;
        }
        let s1 = term * xl / (FP as u128);
        proof {
            assert((s1 as int) * (xl as int) <= 30_000_000_000_000_000_000_000_000 * 3_141_593)
                by (nonlinear_arith)
                requires
                    0 <= s1 as int <= 30_000_000_000_000_000_000_000_000,
                    0 <= xl as int <= 3_141_593,
            ;
        }
        let next = s1 * xl / (FP as u128) / d;
        proof {
            lemma_cos_term_bound(x as int, k as nat);
            lemma_term_cap_increases(k as nat, 11);
        }
        term = next;
        if k % 2 == 1 {
            sum = sum - term as i128;
        } else {
            sum = sum + term as i128;
        }
        proof {
            lemma_cos_partial_bound(x as int, (k + 1) as nat);
        }
        k = k + 1;
    }
    proof {
        lemma_cos_partial_bound(x as int, 12);
        lemma_term_cap_11();
    }
    sum as i64
}

/// The least angle, scanning upward from `r`, whose successor's library
/// cosine is below `t`; pi where no such angle exists.
pub open spec fn acos_scan(t: int, r: int) -> int
    decreases PI_FP - r,
{
    if r < 0 || r >= PI_FP {
        PI_FP as int
    } else if spec_cos_fp(r + 1) < t {
        r
    } else {
        acos_scan(t, r + 1)
    }
}

/// The library arccosine of a ratio in millionth scale: zero for a ratio of
/// one or more, otherwise the least angle whose successor's library cosine
/// drops below the ratio, and pi where the series never drops below it.
pub open spec fn spec_acos_fp(t: int) -> int {
    if t >= FP {
        0
    } else {
        acos_scan(t, 0)
    }
}

/// The fixed-point arccosine, computed exactly as `spec_acos_fp` states it.
pub fn acos_fp(t: i128) -> (r: i64)
    requires
        -(FP as i128) <= t <= FP as i128,
    ensures
        r == spec_acos_fp(t as int),
        0 <= r <= PI_FP,
{
    if t >= FP as i128 {
        return 0;
    }
    let mut r: i64 = 0;
    while r < PI_FP
        invariant
            0 <= r <= PI_FP,
            -(FP as i128) <= t < FP as i128,
            spec_acos_fp(t as int) == acos_scan(t as int, r as int),
        decreases PI_FP - r,
    {
        let c = cos_fp(r + 1);
        if (c as i128) < t {
            return r;
        }
        r = r + 1;
    }
    r
}

} // verus!
