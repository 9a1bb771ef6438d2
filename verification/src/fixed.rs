//! Saturating fixed-point scalars.
//!
//! A scalar is an `i64` count of raw units, `SCALE` of which make one.
//! Every operation is total: results outside the representable range
//! saturate at `MAX_RAW` in magnitude, and multiplication and division
//! round toward zero, exactly as the specification functions below state.

use vstd::prelude::*;

verus! {

/// Number of raw units in one; the scalars carry sixteen fractional bits.
pub const SCALE: i64 = 65536;

/// Largest raw magnitude a scalar may hold; the range is symmetric so that
/// negation never overflows.
pub const MAX_RAW: i64 = 0x7fff_ffff_ffff_ffff;

/// 2^40, an upper bound for the integer square root of any `raw * SCALE`.
pub const ROOT_BOUND: u128 = 0x100_0000_0000;

/// 2^80, square of `ROOT_BOUND`.
pub const ROOT_BOUND_SQ: u128 = 0x1_0000_0000_0000_0000_0000;

/// Magnitude of an unbounded integer.
pub open spec fn iabs(x: int) -> int {
    if x >= 0 {
        x
    } else {
        -x
    }
}

/// Saturate an unbounded integer into the representable raw range.
pub open spec fn clip(x: int) -> int {
    if x > MAX_RAW as int {
        MAX_RAW as int
    } else if x < -(MAX_RAW as int) {
        -(MAX_RAW as int)
    } else {
        x
    }
}

/// Division rounding toward zero, the way the executable magnitude
/// arithmetic behaves (`/` on `int` alone is Euclidean).
pub open spec fn tdiv(n: int, d: int) -> int {
    if (n >= 0) == (d >= 0) {
        iabs(n) / iabs(d)
    } else {
        -(iabs(n) / iabs(d))
    }
}

/// Saturating sum of two raw values.
pub open spec fn sadd(a: int, b: int) -> int {
    clip(a + b)
}

/// Saturating difference of two raw values.
pub open spec fn ssub(a: int, b: int) -> int {
    clip(a - b)
}

/// Saturating negation of a raw value.
pub open spec fn sneg(a: int) -> int {
    clip(-a)
}

/// Saturating fixed-point product of two raw values.
pub open spec fn smul(a: int, b: int) -> int {
    clip(tdiv(a * b, SCALE as int))
}

/// Saturating fixed-point quotient of two raw values.
pub open spec fn sdiv(a: int, b: int) -> int {
    clip(tdiv(a * (SCALE as int), b))
}

/// The integer square root: the unique `r >= 0` with `r * r <= n < (r+1)^2`.
pub open spec fn isqrt_spec(n: int) -> int {
    choose|r: int| 0 <= r && #[trigger] (r * r) <= n && n < (r + 1) * (r + 1)
}

/// Raw value of the fixed-point square root of a non-negative raw value.
pub open spec fn sqrt_raw(a: int) -> int {
    isqrt_spec(a * (SCALE as int))
}

/// A raw value with any negative part removed.
pub open spec fn max0(x: int) -> int {
    if x > 0 {
        x
    } else {
        0
    }
}

/// Raw value of `a` raised to the `n`th power under fixed-point products.
pub open spec fn pow_raw(a: int, n: nat) -> int
    decreases n,
{
    if n == 0 {
        SCALE as int
    } else {
        smul(pow_raw(a, (n - 1) as nat), a)
    }
}

/// Every non-negative integer has an integer square root.
pub proof fn lemma_isqrt_exists(n: int)
    requires
        n >= 0,
    ensures
        exists|q: int| 0 <= q && #[trigger] (q * q) <= n && n < (q + 1) * (q + 1),
    decreases n,
{
    if n == 0 {
        assert(0 * 0 <= n && n < (0 + 1) * (0 + 1)) by (nonlinear_arith)
            requires
                n == 0,
        ;
    } else {
        lemma_isqrt_exists(n - 1);
        let r = choose|q: int| 0 <= q && #[trigger] (q * q) <= n - 1 && n - 1 < (q + 1) * (q + 1);
        if (r + 1) * (r + 1) <= n {
            assert(n == (r + 1) * (r + 1));
            assert((r + 1) * (r + 1) < (r + 2) * (r + 2)) by (nonlinear_arith)
                requires
                    r >= 0,
            ;
            assert(0 <= r + 1 && (r + 1) * (r + 1) <= n && n < (r + 2) * (r + 2));
        } else {
            assert(0 <= r && r * r <= n && n < (r + 1) * (r + 1));
        }
    }
}

/// The two defining inequalities hold of `isqrt_spec` itself.
pub proof fn lemma_isqrt_bounds(n: int)
    requires
        n >= 0,
    ensures
        0 <= isqrt_spec(n),
        isqrt_spec(n) * isqrt_spec(n) <= n,
        n < (isqrt_spec(n) + 1) * (isqrt_spec(n) + 1),
{
    lemma_isqrt_exists(n);
}

/// The integer square root is pinned by its two inequalities.
pub proof fn lemma_isqrt_unique(n: int, r: int)
    requires
        0 <= r,
        r * r <= n,
        n < (r + 1) * (r + 1),
    ensures
        isqrt_spec(n) == r,
{
    assert(0 <= r && r * r <= n && n < (r + 1) * (r + 1));
    assert(exists|q: int| 0 <= q && #[trigger] (q * q) <= n && n < (q + 1) * (q + 1));
    let c = isqrt_spec(n);
    assert(0 <= c && c * c <= n && n < (c + 1) * (c + 1));
    if c < r {
        assert((c + 1) * (c + 1) <= r * r) by (nonlinear_arith)
            requires
                0 <= c + 1,
                c + 1 <= r,
        ;
        assert(false);
    }
    if r < c {
        assert((r + 1) * (r + 1) <= c * c) by (nonlinear_arith)
            requires
                0 <= r + 1,
                r + 1 <= c,
        ;
        assert(false);
    }
}

/// The product of two values in the `i64` range stays well inside `i128`.
proof fn lemma_mul_i64_bound(a: int, b: int)
    by (nonlinear_arith)
    requires
        -0x8000_0000_0000_0000 <= a <= 0x7fff_ffff_ffff_ffff,
        -0x8000_0000_0000_0000 <= b <= 0x7fff_ffff_ffff_ffff,
    ensures
        -0x4000_0000_0000_0000_0000_0000_0000_0000 <= a * b
            <= 0x4000_0000_0000_0000_0000_0000_0000_0000,
{
}

/// The integer square root of a perfect square is its root.
pub proof fn lemma_isqrt_perfect(k: int)
    requires
        0 <= k,
    ensures
        isqrt_spec(k * k) == k,
{
    assert(k * k >= 0) by (nonlinear_arith);
    assert(k * k < (k + 1) * (k + 1)) by (nonlinear_arith)
        requires
            k >= 0,
    ;
    lemma_isqrt_unique(k * k, k);
}

/// A product of two whole scalars is exact: no fractional part exists
/// to be lost, so the fixed-point product is the whole product.
pub proof fn lemma_smul_whole(a: int, b: int)
    requires
        iabs(a * b) * (SCALE as int) <= MAX_RAW as int,
    ensures
        smul(a * (SCALE as int), b * (SCALE as int)) == a * b * (SCALE as int),
{
    let sc = SCALE as int;
    let p = (a * sc) * (b * sc);
    assert(p == ((a * b) * sc) * sc) by (nonlinear_arith)
        requires
            p == (a * sc) * (b * sc),
    ;
    if a * b >= 0 {
        assert((a * b) * sc >= 0) by (nonlinear_arith)
            requires
                a * b >= 0,
                sc > 0,
        ;
        vstd::arithmetic::div_mod::lemma_div_by_multiple((a * b) * sc, sc);
        assert(tdiv(p, sc) == (a * b) * sc);
        assert(iabs(a * b) * sc == (a * b) * sc);
    } else {
        assert((-(a * b)) * sc >= 0) by (nonlinear_arith)
            requires
                a * b < 0,
                sc > 0,
        ;
        assert(-p == ((-(a * b)) * sc) * sc) by (nonlinear_arith)
            requires
                p == (a * sc) * (b * sc),
        ;
        vstd::arithmetic::div_mod::lemma_div_by_multiple((-(a * b)) * sc, sc);
        assert(tdiv(p, sc) == -((-(a * b)) * sc));
        assert(-((-(a * b)) * sc) == (a * b) * sc) by (nonlinear_arith);
        assert(iabs(a * b) * sc == (-(a * b)) * sc);
    }
}

/// Dividing a positive length, or its negation, by itself gives exactly
/// plus or minus one; zero divided by it stays zero.
pub proof fn lemma_sdiv_self(l: int)
    requires
        1 <= l <= MAX_RAW as int,
    ensures
        sdiv(l, l) == SCALE as int,
        sdiv(-l, l) == -(SCALE as int),
        sdiv(0, l) == 0,
{
    let sc = SCALE as int;
    vstd::arithmetic::div_mod::lemma_div_by_multiple(sc, l);
    assert(l * sc == sc * l) by (nonlinear_arith);
    assert(tdiv(l * sc, l) == sc);
    assert((-l) * sc == -(sc * l)) by (nonlinear_arith);
    assert(tdiv((-l) * sc, l) == -sc);
}

/// A fixed-point scalar: the value it stands for is `raw / SCALE`.
#[derive(Clone, Copy, PartialEq, Eq, Structural, Debug)]
pub struct Fx {
    pub raw: i64,
}

/// Spec-level constructor from an already clipped raw value.
pub open spec fn fxs(v: int) -> Fx {
    Fx { raw: v as i64 }
}

/// Magnitude of a raw value, total even at the type's minimum.
fn mag_of(a: i64) -> (m: u64)
    ensures
        m as int == iabs(a as int),
{
    if a >= 0 {
        a as u64
    } else {
        (-(a as i128)) as u64
    }
}

/// Reapply a sign to a magnitude and saturate into the raw range.
fn clip_signed(neg: bool, m: u128) -> (r: i64)
    ensures
        r as int == if neg {
            clip(-(m as int))
        } else {
            clip(m as int)
        },
{
    let c: u128 = if m > MAX_RAW as u128 {
        MAX_RAW as u128
    } else {
        m
    };
    if neg {
        -(c as i64)
    } else {
        c as i64
    }
}

impl Fx {
    /// The scalar standing for the integer `n`.
    pub fn from_int(n: i64) -> (r: Fx)
        ensures
            r.raw == clip(n * (SCALE as int)),
    {
        let p: i128 = (n as i128) * 65536;
        let neg: bool = p < 0;
        let m: u128 = if neg {
            (-p) as u128
        } else {
            p as u128
        };
        Fx { raw: clip_signed(neg, m) }
    }

    /// Saturating sum.
    pub fn add(self, o: Fx) -> (r: Fx)
        ensures
            r.raw == sadd(self.raw as int, o.raw as int),
    {
        let s: i128 = self.raw as i128 + o.raw as i128;
        let neg: bool = s < 0;
        let m: u128 = if neg {
            (-s) as u128
        } else {
            s as u128
        };
        Fx { raw: clip_signed(neg, m) }
    }

    /// Saturating difference.
    pub fn sub(self, o: Fx) -> (r: Fx)
        ensures
            r.raw == ssub(self.raw as int, o.raw as int),
    {
        let s: i128 = self.raw as i128 - o.raw as i128;
        let neg: bool = s < 0;
        let m: u128 = if neg {
            (-s) as u128
        } else {
            s as u128
        };
        Fx { raw: clip_signed(neg, m) }
    }

    /// Saturating negation.
    pub fn neg(self) -> (r: Fx)
        ensures
            r.raw == sneg(self.raw as int),
    {
        let m: u64 = mag_of(self.raw);
        Fx { raw: clip_signed(self.raw > 0, m as u128) }
    }

    /// Saturating fixed-point product, rounded toward zero.
    pub fn mul(self, o: Fx) -> (r: Fx)
        ensures
            r.raw == smul(self.raw as int, o.raw as int),
    {
        proof {
            lemma_mul_i64_bound(self.raw as int, o.raw as int);
        }
        let p: i128 = (self.raw as i128) * (o.raw as i128);
        let neg: bool = p < 0;
        let pm: u128 = if neg {
            (-p) as u128
        } else {
            p as u128
        };
        let q: u128 = pm / 65536;
        Fx { raw: clip_signed(neg, q) }
    }

    /// Saturating product with a plain integer factor.
    pub fn mul_int(self, k: i64) -> (r: Fx)
        ensures
            r.raw == clip(self.raw * k),
    {
        proof {
            lemma_mul_i64_bound(self.raw as int, k as int);
        }
        let p: i128 = (self.raw as i128) * (k as i128);
        let neg: bool = p < 0;
        let pm: u128 = if neg {
            (-p) as u128
        } else {
            p as u128
        };
        Fx { raw: clip_signed(neg, pm) }
    }

    /// Half of a scalar, rounded toward zero.
    pub fn half(self) -> (r: Fx)
        ensures
            r.raw == tdiv(self.raw as int, 2),
    {
        let m: u64 = mag_of(self.raw);
        let q: u64 = m / 2;
        Fx { raw: clip_signed(self.raw < 0, q as u128) }
    }

    /// Saturating fixed-point quotient, rounded toward zero.
    pub fn div(self, o: Fx) -> (r: Fx)
        requires
            o.raw != 0,
        ensures
            r.raw == sdiv(self.raw as int, o.raw as int),
    {
        let ma: u128 = mag_of(self.raw) as u128;
        let mb: u128 = mag_of(o.raw) as u128;
        let n: u128 = ma * 65536;
        let q: u128 = n / mb;
        let neg: bool = (self.raw < 0) != (o.raw < 0);
        Fx { raw: clip_signed(neg, q) }
    }

    /// Fixed-point square root of a non-negative scalar, rounded down.
    pub fn sqrt(self) -> (r: Fx)
        requires
            self.raw >= 0,
        ensures
            r.raw == sqrt_raw(self.raw as int),
            0 <= r.raw,
            r.raw * r.raw <= self.raw * (SCALE as int),
            self.raw * (SCALE as int) < (r.raw + 1) * (r.raw + 1),
    {
        let n: u128 = (self.raw as u128) * 65536;
        let root: u128 = isqrt_u(n);
        proof {
            lemma_isqrt_unique(n as int, root as int);
        }
        Fx { raw: root as i64 }
    }

    /// The scalar with any negative part removed.
    pub fn max0(self) -> (r: Fx)
        ensures
            r.raw == max0(self.raw as int),
    {
        if self.raw > 0 {
            self
        } else {
            Fx { raw: 0 }
        }
    }

    /// Fixed-point power with a plain integer exponent.
    pub fn powi(self, n: u32) -> (r: Fx)
        ensures
            r.raw == pow_raw(self.raw as int, n as nat),
    {
        let mut acc: Fx = Fx { raw: SCALE };
        let mut i: u32 = 0;
        while i < n
            invariant
                i <= n,
                acc.raw == pow_raw(self.raw as int, i as nat),
            decreases n - i,
        {
            acc = acc.mul(self);
            i = i + 1;
        }
        acc
    }
}

/// Integer square root by bisection.
fn isqrt_u(n: u128) -> (r: u128)
    requires
        n < ROOT_BOUND_SQ,
    ensures
        r <= ROOT_BOUND,
        r * r <= n,
        n < (r + 1) * (r + 1),
{
    let mut lo: u128 = 0;
    let mut hi: u128 = ROOT_BOUND;
    proof {
        assert(ROOT_BOUND * ROOT_BOUND == ROOT_BOUND_SQ) by (nonlinear_arith);
        assert(ROOT_BOUND_SQ <= (ROOT_BOUND + 1) * (ROOT_BOUND + 1)) by (nonlinear_arith);
    }
    while lo < hi
        invariant
            lo <= hi <= ROOT_BOUND,
            lo * lo <= n,
            n < (hi + 1) * (hi + 1),
        decreases hi - lo,
    {
        let mid: u128 = lo + (hi - lo + 1) / 2;
        proof {
            assert(mid * mid <= ROOT_BOUND * ROOT_BOUND) by (nonlinear_arith)
                requires
                    mid <= ROOT_BOUND,
            ;
        }
        if mid * mid <= n {
            lo = mid;
        } else {
            hi = mid - 1;
        }
    }
    lo
}

} // verus!
