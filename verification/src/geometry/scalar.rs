//! Fixed-point numbers with 32 fractional bits and saturating arithmetic.
//!
//! A `Scalar` stands for the rational number `raw / 2^32`. Every operation
//! rounds toward zero and saturates at the ends of the `i64` range, which play
//! the part of plus and minus infinity.
use vstd::prelude::*;

verus! {

/// The raw representation of the number one.
pub const ONE_RAW: i64 = 0x1_0000_0000;

/// `v` clamped into the range of raw values.
pub open spec fn saturate(v: int) -> int {
    if v > i64::MAX {
        i64::MAX as int
    } else if v < i64::MIN {
        i64::MIN as int
    } else {
        v
    }
}

/// The absolute value of `v`.
pub open spec fn magnitude(v: int) -> int {
    if v < 0 {
        -v
    } else {
        v
    }
}

/// The quotient of `n` by `d`, rounded toward zero.
pub open spec fn quotient(n: int, d: int) -> int
    recommends
        d != 0,
{
    if (n < 0) == (d < 0) {
        magnitude(n) / magnitude(d)
    } else {
        -(magnitude(n) / magnitude(d))
    }
}

/// `r` is the integer square root of `n`, rounded down.
pub open spec fn is_floor_sqrt(n: int, r: int) -> bool {
    0 <= r && r * r <= n < (r + 1) * (r + 1)
}

/// The integer square root of `n`, rounded down (for `n >= 0`).
pub open spec fn floor_sqrt(n: int) -> int {
    choose|r: int| is_floor_sqrt(n, r)
}

/// At most one integer is the rounded-down square root of `n`.
pub proof fn lemma_floor_sqrt_unique(n: int, r: int, s: int)
    requires
        is_floor_sqrt(n, r),
        is_floor_sqrt(n, s),
    ensures
        r == s,
{
    if r < s {
        assert((r + 1) * (r + 1) <= s * s) by (nonlinear_arith)
            requires
                0 <= r,
                r + 1 <= s,
        ;
    } else if s < r {
        assert((s + 1) * (s + 1) <= r * r) by (nonlinear_arith)
            requires
                0 <= s,
                s + 1 <= r,
        ;
    }
}

/// Every number that is not negative has a rounded-down square root.
pub proof fn lemma_floor_sqrt_exists(n: int)
    requires
        n >= 0,
    ensures
        is_floor_sqrt(n, floor_sqrt(n)),
    decreases n,
{
    if n == 0 {
        assert(is_floor_sqrt(0, 0));
    } else {
        lemma_floor_sqrt_exists(n - 1);
        let r = floor_sqrt(n - 1);
        if (r + 1) * (r + 1) <= n {
            assert((r + 2) * (r + 2) > (r + 1) * (r + 1)) by (nonlinear_arith)
                requires
                    r >= 0,
            ;
            assert(is_floor_sqrt(n, r + 1));
        } else {
            assert(is_floor_sqrt(n, r));
        }
    }
}

/// A fixed-point number: `raw` counts units of `2^-32`.
#[derive(Clone, Copy, PartialEq, Eq, Structural, Debug)]
pub struct Scalar {
    pub raw: i64,
}

/// The absolute value of a raw number.
fn magnitude_of(raw: i64) -> (m: u128)
    ensures
        m == magnitude(raw as int),
        m <= 0x8000_0000_0000_0000,
{
    if raw < 0 {
        (-(raw as i128)) as u128
    } else {
        raw as u128
    }
}

/// The raw number with the given sign and magnitude, saturated.
fn signed_saturating(negative: bool, m: u128) -> (r: i64)
    ensures
        r == saturate(
            if negative {
                -(m as int)
            } else {
                m as int
            },
        ),
{
    if negative {
        if m >= 0x8000_0000_0000_0000 {
            i64::MIN
        } else {
            -(m as i64)
        }
    } else {
        if m > 0x7fff_ffff_ffff_ffff {
            i64::MAX
        } else {
            m as i64
        }
    }
}

/// A wide number cut down to the range of raw numbers.
fn saturating(w: i128) -> (r: i64)
    ensures
        r == saturate(w as int),
{
    if w > i64::MAX as i128 {
        i64::MAX
    } else if w < i64::MIN as i128 {
        i64::MIN
    } else {
        w as i64
    }
}

impl Scalar {
    /// Zero.
    pub open spec fn spec_zero() -> Scalar {
        Scalar { raw: 0 }
    }

    /// One.
    pub open spec fn spec_one() -> Scalar {
        Scalar { raw: ONE_RAW }
    }

    /// The largest number; it stands for an unbounded distance.
    pub open spec fn spec_infinity() -> Scalar {
        Scalar { raw: i64::MAX }
    }

    /// The smallest number.
    pub open spec fn spec_neg_infinity() -> Scalar {
        Scalar { raw: i64::MIN }
    }

    /// The whole number `n`.
    pub open spec fn spec_from_int(n: i32) -> Scalar {
        Scalar { raw: (n as int * ONE_RAW as int) as i64 }
    }

    /// The fraction `num / den`, rounded toward zero and saturated.
    #[verifier::opaque]
    pub open spec fn spec_from_ratio(num: i64, den: i64) -> Scalar {
        if den == 0 {
            Scalar {
                raw: if num > 0 {
                    i64::MAX
                } else if num < 0 {
                    i64::MIN
                } else {
                    0
                },
            }
        } else {
            Scalar { raw: saturate(quotient(num as int * ONE_RAW as int, den as int)) as i64 }
        }
    }

    /// The count `n` as a number, saturated.
    pub open spec fn spec_from_count(n: nat) -> Scalar {
        Scalar { raw: saturate(n * ONE_RAW) as i64 }
    }

    /// The saturated sum.
    pub open spec fn spec_add(self, other: Scalar) -> Scalar {
        Scalar { raw: saturate(self.raw + other.raw) as i64 }
    }

    /// The saturated difference.
    pub open spec fn spec_sub(self, other: Scalar) -> Scalar {
        Scalar { raw: saturate(self.raw - other.raw) as i64 }
    }

    /// The saturated negation.
    pub open spec fn spec_neg(self) -> Scalar {
        Scalar { raw: saturate(-self.raw) as i64 }
    }

    /// The saturated absolute value.
    pub open spec fn spec_abs(self) -> Scalar {
        Scalar { raw: saturate(magnitude(self.raw as int)) as i64 }
    }

    /// The product, rounded toward zero and saturated.
    #[verifier::opaque]
    pub open spec fn spec_mul(self, other: Scalar) -> Scalar {
        Scalar { raw: saturate(quotient(self.raw * other.raw, ONE_RAW as int)) as i64 }
    }

    /// The quotient, rounded toward zero and saturated. Dividing by zero
    /// saturates by the sign of the dividend, and zero by zero is zero.
    pub open spec fn spec_div(self, other: Scalar) -> Scalar {
        Self::spec_from_ratio(self.raw, other.raw)
    }

    /// The square root, rounded down; zero for arguments that are not positive.
    #[verifier::opaque]
    pub open spec fn spec_sqrt(self) -> Scalar {
        if self.raw <= 0 {
            Scalar { raw: 0 }
        } else {
            Scalar { raw: floor_sqrt(self.raw * ONE_RAW) as i64 }
        }
    }

    /// The smaller of two numbers.
    pub open spec fn spec_min(self, other: Scalar) -> Scalar {
        if self.raw <= other.raw {
            self
        } else {
            other
        }
    }

    /// The larger of two numbers.
    pub open spec fn spec_max(self, other: Scalar) -> Scalar {
        if self.raw >= other.raw {
            self
        } else {
            other
        }
    }

    /// `self` limited to the interval from `low` to `high`.
    pub open spec fn spec_clamp(self, low: Scalar, high: Scalar) -> Scalar {
        if self.raw < low.raw {
            low
        } else if self.raw > high.raw {
            high
        } else {
            self
        }
    }

    /// The number that counts `raw` units of `2^-32`.
    pub fn from_raw(raw: i64) -> (r: Scalar)
        ensures
            r.raw == raw,
    {
        Scalar { raw }
    }

    /// Zero.
    pub fn zero() -> (r: Scalar)
        ensures
            r == Self::spec_zero(),
    {
        Scalar { raw: 0 }
    }

    /// One.
    pub fn one() -> (r: Scalar)
        ensures
            r == Self::spec_one(),
    {
        Scalar { raw: ONE_RAW }
    }

    /// The largest number, which stands for an unbounded distance.
    pub fn infinity() -> (r: Scalar)
        ensures
            r == Self::spec_infinity(),
    {
        Scalar { raw: i64::MAX }
    }

    /// The smallest number.
    pub fn neg_infinity() -> (r: Scalar)
        ensures
            r == Self::spec_neg_infinity(),
    {
        Scalar { raw: i64::MIN }
    }

    /// The whole number `n`.
    pub fn from_int(n: i32) -> (r: Scalar)
        ensures
            r == Self::spec_from_int(n),
            r.raw == n * ONE_RAW,
    {
        Scalar { raw: (n as i64) * ONE_RAW }
    }

    /// The count `n` as a number; counts from `2^31` on give the largest number.
    pub fn from_count(n: usize) -> (r: Scalar)
        ensures
            r == Self::spec_from_count(n as nat),
    {
        if n >= 0x8000_0000 {
            Scalar { raw: i64::MAX }
        } else {
            Scalar { raw: (n as i64) * ONE_RAW }
        }
    }

    /// The fraction `num / den`, rounded toward zero and saturated. A zero
    /// denominator gives the largest or the smallest number by the sign of
    /// the numerator, and zero for zero.
    pub fn from_ratio(num: i64, den: i64) -> (r: Scalar)
        ensures
            r == Self::spec_from_ratio(num, den),
    {
        reveal(Scalar::spec_from_ratio);
        if den == 0 {
            if num > 0 {
                Scalar { raw: i64::MAX }
            } else if num < 0 {
                Scalar { raw: i64::MIN }
            } else {
                Scalar { raw: 0 }
            }
        } else {
            let n: u128 = magnitude_of(num) * 0x1_0000_0000;
            let d: u128 = magnitude_of(den);
            let negative = (num < 0) != (den < 0);
            assert(magnitude(num as int * ONE_RAW as int) == n);
            Scalar { raw: signed_saturating(negative, n / d) }
        }
    }

    /// The sum, saturated.
    pub fn add(self, other: Scalar) -> (r: Scalar)
        ensures
            r == self.spec_add(other),
    {
        Scalar { raw: saturating(self.raw as i128 + other.raw as i128) }
    }

    /// The difference, saturated.
    pub fn sub(self, other: Scalar) -> (r: Scalar)
        ensures
            r == self.spec_sub(other),
    {
        Scalar { raw: saturating(self.raw as i128 - other.raw as i128) }
    }

    /// The negation, saturated.
    pub fn neg(self) -> (r: Scalar)
        ensures
            r == self.spec_neg(),
    {
        Scalar { raw: saturating(-(self.raw as i128)) }
    }

    /// The absolute value, saturated.
    pub fn abs(self) -> (r: Scalar)
        ensures
            r == self.spec_abs(),
    {
        Scalar { raw: signed_saturating(false, magnitude_of(self.raw)) }
    }

    /// The product, rounded toward zero and saturated.
    pub fn mul(self, other: Scalar) -> (r: Scalar)
        ensures
            r == self.spec_mul(other),
    {
        reveal(Scalar::spec_mul);
        let a: u128 = magnitude_of(self.raw);
        let b: u128 = magnitude_of(other.raw);
        let negative = (self.raw < 0) != (other.raw < 0);
        proof {
            lemma_product_magnitude(self.raw as int, other.raw as int);
            assert(a * b <= 0x8000_0000_0000_0000 * 0x8000_0000_0000_0000) by (nonlinear_arith)
                requires
                    0 <= a <= 0x8000_0000_0000_0000,
                    0 <= b <= 0x8000_0000_0000_0000,
            ;
        }
        let q: u128 = (a * b) / 0x1_0000_0000;
        Scalar { raw: signed_saturating(negative, q) }
    }

    /// The quotient, rounded toward zero and saturated. Dividing by zero
    /// gives the largest or the smallest number by the sign of the dividend,
    /// and zero for zero.
    pub fn div(self, other: Scalar) -> (r: Scalar)
        ensures
            r == self.spec_div(other),
    {
        Self::from_ratio(self.raw, other.raw)
    }

    /// The square root, rounded down; zero for an argument that is not
    /// positive.
    pub fn sqrt(self) -> (r: Scalar)
        ensures
            r == self.spec_sqrt(),
    {
        reveal(Scalar::spec_sqrt);
        if self.raw <= 0 {
            return Scalar { raw: 0 };
        }
        let n: u128 = (self.raw as u128) * 0x1_0000_0000;
        let mut low: u128 = 0;
        let mut high: u128 = 0x1_0000_0000_0000;
        assert(0x1_0000_0000_0000u128 * 0x1_0000_0000_0000u128 > n) by (nonlinear_arith)
            requires
                n < 0x8000_0000_0000_0000 * 0x1_0000_0000,
        ;
        while high - low > 1
            invariant
                low < high <= 0x1_0000_0000_0000,
                low * low <= n < high * high,
            decreases high - low,
        {
            let middle: u128 = low + (high - low) / 2;
            assert(middle * middle < 0x1_0000_0000_0000 * 0x1_0000_0000_0000) by (nonlinear_arith)
                requires
                    0 <= middle < 0x1_0000_0000_0000,
            ;
            if middle * middle <= n {
                low = middle;
            } else {
                high = middle;
            }
        }
        proof {
            assert(is_floor_sqrt(n as int, low as int));
            lemma_floor_sqrt_unique(n as int, low as int, floor_sqrt(n as int));
        }
        Scalar { raw: low as i64 }
    }

    /// The smaller of two numbers.
    pub fn min(self, other: Scalar) -> (r: Scalar)
        ensures
            r == self.spec_min(other),
    {
        if self.raw <= other.raw {
            self
        } else {
            other
        }
    }

    /// The larger of two numbers.
    pub fn max(self, other: Scalar) -> (r: Scalar)
        ensures
            r == self.spec_max(other),
    {
        if self.raw >= other.raw {
            self
        } else {
            other
        }
    }

    /// `self` limited to the interval from `low` to `high`.
    pub fn clamp(self, low: Scalar, high: Scalar) -> (r: Scalar)
        ensures
            r == self.spec_clamp(low, high),
    {
        if self.raw < low.raw {
            low
        } else if self.raw > high.raw {
            high
        } else {
            self
        }
    }
}

/// Negating a factor negates the product, short of the smallest number:
/// the product with the negated factor is the negated product, or one
/// below it where either has saturated.
pub proof fn lemma_mul_negated(a: Scalar, b: Scalar)
    requires
        a.raw > i64::MIN,
    ensures
        -a.spec_mul(b).raw - 1 <= a.spec_neg().spec_mul(b).raw <= -a.spec_mul(b).raw,
{
    reveal(Scalar::spec_mul);
    let s = ONE_RAW as int;
    let p = a.raw as int * b.raw as int;
    assert((-a.raw) * b.raw == -p) by (nonlinear_arith)
        requires
            p == a.raw as int * b.raw as int,
    ;
    assert(quotient(-p, s) == -quotient(p, s)) by {
        if p == 0 {
            assert(0int / s == 0) by (nonlinear_arith)
                requires
                    s > 0,
            ;
        }
    }
}

/// A product of two numbers that are not negative is not negative.
pub proof fn lemma_mul_not_negative(a: Scalar, b: Scalar)
    requires
        a.raw >= 0,
        b.raw >= 0,
    ensures
        a.spec_mul(b).raw >= 0,
{
    reveal(Scalar::spec_mul);
    let s = ONE_RAW as int;
    let p = a.raw as int * b.raw as int;
    assert(p >= 0) by (nonlinear_arith)
        requires
            p == a.raw as int * b.raw as int,
            a.raw >= 0,
            b.raw >= 0,
    ;
    assert(p / s >= 0) by (nonlinear_arith)
        requires
            p >= 0,
            s > 0,
    ;
}

/// A number divided by a positive number that does not exceed it gives one
/// or more.
pub proof fn lemma_div_at_least_one(a: Scalar, b: Scalar)
    requires
        0 < b.raw <= a.raw,
    ensures
        a.spec_div(b).raw >= ONE_RAW,
{
    reveal(Scalar::spec_from_ratio);
    let s = ONE_RAW as int;
    let top = a.raw as int * s;
    let d = b.raw as int;
    assert(top >= d * s) by (nonlinear_arith)
        requires
            top == a.raw as int * s,
            a.raw >= d,
            s > 0,
    ;
    assert(top / d >= s) by (nonlinear_arith)
        requires
            top >= d * s,
            d > 0,
    ;
}

/// A product with a factor zero is zero.
pub proof fn lemma_mul_zero(a: Scalar)
    ensures
        a.spec_mul(Scalar::spec_zero()) == Scalar::spec_zero(),
        Scalar::spec_zero().spec_mul(a) == Scalar::spec_zero(),
{
    reveal(Scalar::spec_mul);
    assert(a.raw * 0 == 0 && 0 * a.raw == 0) by (nonlinear_arith);
}

/// Multiplying by one or by minus one is exact, short of the smallest
/// number.
pub proof fn lemma_mul_one(a: Scalar)
    requires
        a.raw > i64::MIN,
    ensures
        a.spec_mul(Scalar::spec_one()) == a,
        Scalar::spec_one().spec_mul(a) == a,
        a.spec_mul(Scalar::spec_one().spec_neg()) == a.spec_neg(),
        Scalar::spec_one().spec_neg().spec_mul(a) == a.spec_neg(),
{
    reveal(Scalar::spec_mul);
    let s = ONE_RAW as int;
    let m = magnitude(a.raw as int);
    assert(a.raw * s == s * a.raw) by (nonlinear_arith);
    assert(a.raw * (-s) == -(a.raw * s) && (-s) * a.raw == -(a.raw * s)) by (nonlinear_arith);
    assert(magnitude(a.raw * s) == m * s) by (nonlinear_arith)
        requires
            m == magnitude(a.raw as int),
            s > 0,
    ;
    assert((m * s) / s == m) by (nonlinear_arith)
        requires
            s > 0,
            m >= 0,
    ;
}

/// Multiplying by a whole number is exact where the product stays in
/// range.
pub proof fn lemma_mul_whole(n: i32, a: Scalar)
    requires
        i64::MIN < n * a.raw <= i64::MAX,
    ensures
        Scalar::spec_from_int(n).spec_mul(a).raw == n * a.raw,
{
    reveal(Scalar::spec_mul);
    let s = ONE_RAW as int;
    let p = n as int * a.raw as int;
    assert((n * s) * a.raw == p * s) by (nonlinear_arith)
        requires
            p == n as int * a.raw as int,
    ;
    assert(magnitude(p * s) == magnitude(p) * s) by (nonlinear_arith)
        requires
            s > 0,
    ;
    assert((magnitude(p) * s) / s == magnitude(p)) by (nonlinear_arith)
        requires
            s > 0,
            magnitude(p) >= 0,
    ;
    assert(p * s < 0 <==> p < 0) by (nonlinear_arith)
        requires
            s > 0,
    ;
}

/// Rounding toward zero keeps the order of the dividends when the divisor is
/// positive.
pub proof fn lemma_quotient_monotone(n: int, m: int, d: int)
    requires
        n <= m,
        0 < d,
    ensures
        quotient(n, d) <= quotient(m, d),
{
    if n >= 0 {
        vstd::arithmetic::div_mod::lemma_div_is_ordered(n, m, d);
    } else if m >= 0 {
        vstd::arithmetic::div_mod::lemma_div_is_ordered(0, -n, d);
        vstd::arithmetic::div_mod::lemma_div_is_ordered(0, m, d);
    } else {
        vstd::arithmetic::div_mod::lemma_div_is_ordered(-m, -n, d);
    }
}

/// Negating the divisor negates the quotient.
pub proof fn lemma_quotient_negated(n: int, d: int)
    requires
        d != 0,
    ensures
        quotient(n, -d) == -quotient(n, d),
{
    if n == 0 {
        assert(0int / magnitude(d) == 0) by (nonlinear_arith)
            requires
                magnitude(d) > 0,
        ;
    }
}

/// Division keeps the order of the dividends when the divisor is positive
/// and reverses it when the divisor is negative.
pub proof fn lemma_div_monotone(a: Scalar, b: Scalar, d: Scalar)
    requires
        a.raw <= b.raw,
        d.raw != 0,
    ensures
        d.raw > 0 ==> a.spec_div(d).raw <= b.spec_div(d).raw,
        d.raw < 0 ==> a.spec_div(d).raw >= b.spec_div(d).raw,
{
    reveal(Scalar::spec_from_ratio);
    let n = a.raw as int * ONE_RAW as int;
    let m = b.raw as int * ONE_RAW as int;
    if d.raw > 0 {
        lemma_quotient_monotone(n, m, d.raw as int);
    } else {
        lemma_quotient_monotone(n, m, -(d.raw as int));
        lemma_quotient_negated(n, -(d.raw as int));
        lemma_quotient_negated(m, -(d.raw as int));
    }
}

/// The magnitude of a product is the product of the magnitudes, and the
/// product is negative only where the signs of its factors differ.
pub proof fn lemma_product_magnitude(a: int, b: int)
    ensures
        magnitude(a * b) == magnitude(a) * magnitude(b),
        a * b < 0 <==> a != 0 && b != 0 && (a < 0) != (b < 0),
        a * b == 0 <==> a == 0 || b == 0,
{
    assert(magnitude(a * b) == magnitude(a) * magnitude(b)) by (nonlinear_arith);
    assert(a * b < 0 <==> a != 0 && b != 0 && (a < 0) != (b < 0)) by (nonlinear_arith);
    assert(a * b == 0 <==> a == 0 || b == 0) by (nonlinear_arith);
}

} // verus!
