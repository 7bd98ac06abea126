//! Three-dimensional vectors over fixed-point numbers.
use vstd::prelude::*;
use crate::config::{epsilon, spec_epsilon};
use crate::geometry::scalar::{
    floor_sqrt, is_floor_sqrt, lemma_floor_sqrt_exists, lemma_mul_negated, lemma_mul_whole,
    lemma_mul_zero, magnitude, quotient, Scalar, ONE_RAW,
};

verus! {

/// Draws 32 bits from the thread's random number generator, by
/// `rand::random`. Nothing is promised of the value: it differs from call
/// to call.
#[verifier::external_body]
pub(crate) fn random_bits() -> (r: u32) {
    rand::random::<u32>()
}

/// The number between minus one and one that 32 bits stand for: the bits
/// count steps of `2^-31` upward from minus one.
pub open spec fn spec_signed_fraction(bits: u32) -> Scalar {
    Scalar { raw: (2 * bits - ONE_RAW) as i64 }
}

/// The number between minus one and one that 32 bits stand for.
pub fn signed_fraction(bits: u32) -> (r: Scalar)
    ensures
        r == spec_signed_fraction(bits),
        -ONE_RAW <= r.raw < ONE_RAW,
{
    Scalar { raw: 2 * (bits as i64) - ONE_RAW }
}

/// A vector, a point or a colour: three fixed-point components.
#[derive(Clone, Copy, PartialEq, Eq, Structural, Debug)]
pub struct Vector {
    pub x: Scalar,
    pub y: Scalar,
    pub z: Scalar,
}

impl Vector {
    /// The vector whose three components are zero.
    pub open spec fn spec_zero() -> Vector {
        Vector { x: Scalar::spec_zero(), y: Scalar::spec_zero(), z: Scalar::spec_zero() }
    }

    /// The vector whose three components are `v`.
    pub open spec fn spec_uniform(v: Scalar) -> Vector {
        Vector { x: v, y: v, z: v }
    }

    /// The componentwise negation.
    pub open spec fn spec_neg(self) -> Vector {
        Vector { x: self.x.spec_neg(), y: self.y.spec_neg(), z: self.z.spec_neg() }
    }

    /// The componentwise sum.
    pub open spec fn spec_add(self, other: Vector) -> Vector {
        Vector {
            x: self.x.spec_add(other.x),
            y: self.y.spec_add(other.y),
            z: self.z.spec_add(other.z),
        }
    }

    /// The componentwise difference.
    pub open spec fn spec_sub(self, other: Vector) -> Vector {
        Vector {
            x: self.x.spec_sub(other.x),
            y: self.y.spec_sub(other.y),
            z: self.z.spec_sub(other.z),
        }
    }

    /// Every component multiplied by `scalar`.
    pub open spec fn spec_mul(self, scalar: Scalar) -> Vector {
        Vector {
            x: self.x.spec_mul(scalar),
            y: self.y.spec_mul(scalar),
            z: self.z.spec_mul(scalar),
        }
    }

    /// Every component divided by `scalar`.
    pub open spec fn spec_div(self, scalar: Scalar) -> Vector {
        Vector {
            x: self.x.spec_div(scalar),
            y: self.y.spec_div(scalar),
            z: self.z.spec_div(scalar),
        }
    }

    /// The dot product, summed from the left.
    pub open spec fn spec_dot(self, other: Vector) -> Scalar {
        self.x.spec_mul(other.x).spec_add(self.y.spec_mul(other.y)).spec_add(
            self.z.spec_mul(other.z),
        )
    }

    /// The cross product.
    pub open spec fn spec_cross(self, other: Vector) -> Vector {
        Vector {
            x: self.y.spec_mul(other.z).spec_sub(self.z.spec_mul(other.y)),
            y: self.z.spec_mul(other.x).spec_sub(self.x.spec_mul(other.z)),
            z: self.x.spec_mul(other.y).spec_sub(self.y.spec_mul(other.x)),
        }
    }

    /// The componentwise product.
    pub open spec fn spec_hadamard(self, other: Vector) -> Vector {
        Vector {
            x: self.x.spec_mul(other.x),
            y: self.y.spec_mul(other.y),
            z: self.z.spec_mul(other.z),
        }
    }

    /// Every component limited to the interval from `min` to `max`.
    pub open spec fn spec_clamp(self, min: Scalar, max: Scalar) -> Vector {
        Vector {
            x: self.x.spec_clamp(min, max),
            y: self.y.spec_clamp(min, max),
            z: self.z.spec_clamp(min, max),
        }
    }

    /// The componentwise smaller of two vectors.
    pub open spec fn spec_min(self, other: Vector) -> Vector {
        Vector {
            x: self.x.spec_min(other.x),
            y: self.y.spec_min(other.y),
            z: self.z.spec_min(other.z),
        }
    }

    /// The componentwise larger of two vectors.
    pub open spec fn spec_max(self, other: Vector) -> Vector {
        Vector {
            x: self.x.spec_max(other.x),
            y: self.y.spec_max(other.y),
            z: self.z.spec_max(other.z),
        }
    }

    /// No component of `self` exceeds that of `other`.
    pub open spec fn spec_le(self, other: Vector) -> bool {
        self.x.raw <= other.x.raw && self.y.raw <= other.y.raw && self.z.raw <= other.z.raw
    }

    /// The point `(a, b)` lies strictly inside the unit disc.
    pub open spec fn spec_in_disc(a: Scalar, b: Scalar) -> bool {
        a.spec_mul(a).spec_add(b.spec_mul(b)).raw < ONE_RAW
    }

    /// The point of the unit sphere that belongs to the point `(a, b)` of the
    /// unit disc: with `s = a^2 + b^2`, the vector
    /// `(2a * sqrt(1 - s), 2b * sqrt(1 - s), 1 - 2s)`. Points spread evenly
    /// over the disc give points spread evenly over the sphere.
    pub open spec fn spec_on_sphere(a: Scalar, b: Scalar) -> Vector {
        let s = a.spec_mul(a).spec_add(b.spec_mul(b));
        let root = Scalar::spec_one().spec_sub(s).spec_sqrt();
        let two = Scalar::spec_from_int(2);
        Vector {
            x: two.spec_mul(a).spec_mul(root),
            y: two.spec_mul(b).spec_mul(root),
            z: Scalar::spec_one().spec_sub(two.spec_mul(s)),
        }
    }

    /// `self` is a possible outcome of `random`: the point of the sphere that
    /// belongs to some point of the square from minus one to one that lies
    /// inside the unit disc.
    pub open spec fn spec_is_random(self) -> bool {
        exists|a: Scalar, b: Scalar|
            {
                &&& -ONE_RAW <= a.raw <= ONE_RAW
                &&& -ONE_RAW <= b.raw <= ONE_RAW
                &&& Self::spec_in_disc(a, b)
                &&& self == #[trigger] Self::spec_on_sphere(a, b)
            }
    }

    /// The squared length.
    pub open spec fn spec_magnitude_sqr(self) -> Scalar {
        self.spec_dot(self)
    }

    /// The length.
    pub open spec fn spec_magnitude(self) -> Scalar {
        self.spec_magnitude_sqr().spec_sqrt()
    }

    /// The vector divided by its length.
    pub open spec fn spec_normalize(self) -> Vector {
        self.spec_div(self.spec_magnitude())
    }

    /// The part of `self` that lies along `other`.
    pub open spec fn spec_project(self, other: Vector) -> Vector {
        other.spec_mul(self.spec_dot(other).spec_div(other.spec_dot(other)))
    }

    /// Every component lies within the tolerance of zero.
    pub open spec fn spec_is_zero(self) -> bool {
        &&& self.x.spec_abs().raw <= spec_epsilon().raw
        &&& self.y.spec_abs().raw <= spec_epsilon().raw
        &&& self.z.spec_abs().raw <= spec_epsilon().raw
    }

    /// The vector with the given components.
    pub fn new(x: Scalar, y: Scalar, z: Scalar) -> (r: Vector)
        ensures
            r == (Vector { x, y, z }),
    {
        Vector { x, y, z }
    }

    /// The vector whose three components are zero.
    pub fn zero() -> (r: Vector)
        ensures
            r == Self::spec_zero(),
    {
        Vector { x: Scalar::zero(), y: Scalar::zero(), z: Scalar::zero() }
    }

    /// The vector whose three components are `v`.
    pub fn uniform(v: Scalar) -> (r: Vector)
        ensures
            r == Self::spec_uniform(v),
    {
        Vector { x: v, y: v, z: v }
    }

    /// Tells whether the point `(a, b)` lies strictly inside the unit disc.
    pub fn in_disc(a: Scalar, b: Scalar) -> (r: bool)
        ensures
            r == Self::spec_in_disc(a, b),
    {
        a.mul(a).add(b.mul(b)).raw < ONE_RAW
    }

    /// Maps the point `(a, b)` of the unit disc to the unit sphere.
    pub fn on_sphere(a: Scalar, b: Scalar) -> (r: Vector)
        ensures
            r == Self::spec_on_sphere(a, b),
    {
        let s = a.mul(a).add(b.mul(b));
        let root = Scalar::one().sub(s).sqrt();
        let two = Scalar::from_int(2);
        Vector {
            x: two.mul(a).mul(root),
            y: two.mul(b).mul(root),
            z: Scalar::one().sub(two.mul(s)),
        }
    }

    /// Draws a direction at random, evenly over the unit sphere: points of
    /// the enclosing square are drawn until one falls inside the unit disc,
    /// and that one is mapped to the sphere. After 32 draws outside the disc
    /// the centre of the disc is taken.
    pub fn random() -> (r: Vector)
        ensures
            r.spec_is_random(),
    {
        let mut tries: u32 = 0;
        while tries < 32
            invariant
                tries <= 32,
            decreases 32 - tries,
        {
            let a = signed_fraction(random_bits());
            let b = signed_fraction(random_bits());
            if Self::in_disc(a, b) {
                return Self::on_sphere(a, b);
            }
            tries += 1;
        }
        proof {
            lemma_mul_zero(Scalar::spec_zero());
        }
        Self::on_sphere(Scalar::zero(), Scalar::zero())
    }

    /// The squared length.
    pub fn magnitude_sqr(&self) -> (r: Scalar)
        ensures
            r == self.spec_magnitude_sqr(),
    {
        self.dot(self)
    }

    /// The length.
    pub fn magnitude(&self) -> (r: Scalar)
        ensures
            r == self.spec_magnitude(),
    {
        self.magnitude_sqr().sqrt()
    }

    /// The vector divided by its length. The zero vector stays as it is.
    pub fn normalize(&self) -> (r: Vector)
        ensures
            r == self.spec_normalize(),
    {
        let m = self.magnitude();
        Vector { x: self.x.div(m), y: self.y.div(m), z: self.z.div(m) }
    }

    /// The dot product.
    pub fn dot(&self, other: &Vector) -> (r: Scalar)
        ensures
            r == self.spec_dot(*other),
    {
        self.x.mul(other.x).add(self.y.mul(other.y)).add(self.z.mul(other.z))
    }

    /// The cross product.
    pub fn cross(&self, other: &Vector) -> (r: Vector)
        ensures
            r == self.spec_cross(*other),
    {
        Vector {
            x: self.y.mul(other.z).sub(self.z.mul(other.y)),
            y: self.z.mul(other.x).sub(self.x.mul(other.z)),
            z: self.x.mul(other.y).sub(self.y.mul(other.x)),
        }
    }

    /// The componentwise product.
    pub fn hadamard(&self, other: &Vector) -> (r: Vector)
        ensures
            r == self.spec_hadamard(*other),
    {
        Vector { x: self.x.mul(other.x), y: self.y.mul(other.y), z: self.z.mul(other.z) }
    }

    /// Every component limited to the interval from `min` to `max`.
    pub fn clamp(&self, min: Scalar, max: Scalar) -> (r: Vector)
        ensures
            r == self.spec_clamp(min, max),
    {
        Vector { x: self.x.clamp(min, max), y: self.y.clamp(min, max), z: self.z.clamp(min, max) }
    }

    /// The componentwise smaller of two vectors.
    pub fn min(&self, other: &Vector) -> (r: Vector)
        ensures
            r == self.spec_min(*other),
    {
        Vector { x: self.x.min(other.x), y: self.y.min(other.y), z: self.z.min(other.z) }
    }

    /// The componentwise larger of two vectors.
    pub fn max(&self, other: &Vector) -> (r: Vector)
        ensures
            r == self.spec_max(*other),
    {
        Vector { x: self.x.max(other.x), y: self.y.max(other.y), z: self.z.max(other.z) }
    }

    /// The part of `self` that lies along `other`.
    pub fn project(&self, other: &Vector) -> (r: Vector)
        ensures
            r == self.spec_project(*other),
    {
        other.mul(self.dot(other).div(other.dot(other)))
    }

    /// Tells whether every component lies within the tolerance of zero.
    pub fn is_zero(&self) -> (r: bool)
        ensures
            r == self.spec_is_zero(),
    {
        let e = epsilon();
        self.x.abs().raw <= e.raw && self.y.abs().raw <= e.raw && self.z.abs().raw <= e.raw
    }

    /// The componentwise negation.
    pub fn neg(self) -> (r: Vector)
        ensures
            r == self.spec_neg(),
    {
        Vector { x: self.x.neg(), y: self.y.neg(), z: self.z.neg() }
    }

    /// The componentwise sum.
    pub fn add(self, other: Vector) -> (r: Vector)
        ensures
            r == self.spec_add(other),
    {
        Vector { x: self.x.add(other.x), y: self.y.add(other.y), z: self.z.add(other.z) }
    }

    /// The componentwise difference.
    pub fn sub(self, other: Vector) -> (r: Vector)
        ensures
            r == self.spec_sub(other),
    {
        Vector { x: self.x.sub(other.x), y: self.y.sub(other.y), z: self.z.sub(other.z) }
    }

    /// Every component multiplied by `scalar`.
    pub fn mul(self, scalar: Scalar) -> (r: Vector)
        ensures
            r == self.spec_mul(scalar),
    {
        Vector { x: self.x.mul(scalar), y: self.y.mul(scalar), z: self.z.mul(scalar) }
    }

    /// Every component divided by `scalar`.
    pub fn div(self, scalar: Scalar) -> (r: Vector)
        ensures
            r == self.spec_div(scalar),
    {
        Vector { x: self.x.div(scalar), y: self.y.div(scalar), z: self.z.div(scalar) }
    }
}

/// The square of a product that was rounded toward zero: with `x` the
/// rounded quotient of `2 * a * root` by `2^32`, where `root` is the
/// rounded-down square root of `w * 2^32` and `whole` the rounded quotient
/// of `a * a` by `2^32`, the square of `x` lies between
/// `4 * whole * w - 12 * 2^32 - 4` and `4 * whole * w + 4 * 2^32`.
proof fn lemma_square_of_rounded_product(a: int, root: int, w: int, whole: int, x: int)
    requires
        -ONE_RAW <= a <= ONE_RAW,
        1 <= w <= ONE_RAW,
        is_floor_sqrt(w * ONE_RAW, root),
        whole == (a * a) / (ONE_RAW as int),
        x == quotient(2 * a * root, ONE_RAW as int),
    ensures
        4 * whole * w - 12 * ONE_RAW - 4 <= x * x <= 4 * whole * w + 4 * ONE_RAW,
{
    let s = ONE_RAW as int;
    let p = 2 * a * root;
    let m = magnitude(p);
    let q = m / s;
    let rest = m % s;
    let aa = a * a;
    let alpha = aa % s;
    // The root is at most one.
    assert(root <= s) by (nonlinear_arith)
        requires
            0 <= root,
            root * root <= w * s,
            w <= s,
            s > 0,
    ;
    assert(0 <= aa <= s * s) by (nonlinear_arith)
        requires
            aa == a * a,
            -s <= a <= s,
    ;
    assert(x * x == q * q) by {
        assert(x == q || x == -q);
        assert((-q) * (-q) == q * q) by (nonlinear_arith);
    }
    assert(m == q * s + rest && 0 <= rest < s) by {
        vstd::arithmetic::div_mod::lemma_fundamental_div_mod(m, s);
        vstd::arithmetic::div_mod::lemma_mod_bound(m, s);
        assert(s * q == q * s) by (nonlinear_arith);
    }
    assert(aa == whole * s + alpha && 0 <= alpha < s) by {
        vstd::arithmetic::div_mod::lemma_fundamental_div_mod(aa, s);
        vstd::arithmetic::div_mod::lemma_mod_bound(aa, s);
        assert(s * whole == whole * s) by (nonlinear_arith);
    }
    let mm = m * m;
    assert(mm == 4 * aa * (root * root)) by (nonlinear_arith)
        requires
            mm == m * m,
            m == p || m == -p,
            p == 2 * a * root,
            aa == a * a,
    ;
    assert(0 <= m <= 2 * s * s) by (nonlinear_arith)
        requires
            m == p || m == -p,
            m >= 0,
            p == 2 * a * root,
            -s <= a <= s,
            0 <= root <= s,
    ;
    let qs = q * s;
    assert(qs * qs == (q * q) * (s * s)) by (nonlinear_arith)
        requires
            qs == q * s,
    ;
    // The rounded product, scaled back, lies at most 2 * m * 2^32 below the
    // product itself.
    assert(mm - 4 * s * s * s <= qs * qs <= mm) by (nonlinear_arith)
        requires
            qs == m - rest,
            0 <= rest < s,
            rest <= m,
            mm == m * m,
            0 <= m <= 2 * s * s,
    ;
    let rr = root * root;
    let ws = w * s;
    assert(ws - 2 * s - 1 <= rr <= ws) by (nonlinear_arith)
        requires
            rr == root * root,
            rr <= ws,
            ws < (root + 1) * (root + 1),
            0 <= root <= s,
    ;
    assert(4 * aa * ws - 4 * (s * s) * (2 * s + 1) <= mm <= 4 * aa * ws) by (nonlinear_arith)
        requires
            mm == 4 * aa * rr,
            ws - 2 * s - 1 <= rr <= ws,
            0 <= aa <= s * s,
    ;
    let t = 4 * whole * w;
    assert(4 * aa * ws == t * (s * s) + 4 * alpha * w * s) by (nonlinear_arith)
        requires
            aa == whole * s + alpha,
            ws == w * s,
            t == 4 * whole * w,
    ;
    assert(0 <= 4 * alpha * w * s < 4 * s * s * s) by (nonlinear_arith)
        requires
            0 <= alpha < s,
            1 <= w <= s,
            s > 0,
    ;
    let ss = s * s;
    let xx = q * q;
    assert(4 * s * s * s == (4 * s) * ss && 4 * (s * s) * (2 * s + 1) == (8 * s + 4) * ss)
        by (nonlinear_arith)
        requires
            ss == s * s,
    ;
    assert(xx * ss < (t + 4 * s) * ss) by (nonlinear_arith)
        requires
            xx * ss <= mm,
            mm <= t * ss + 4 * alpha * w * s,
            4 * alpha * w * s < (4 * s) * ss,
    ;
    assert(xx * ss >= (t - 12 * s - 4) * ss) by (nonlinear_arith)
        requires
            xx * ss >= mm - (4 * s) * ss,
            mm >= t * ss + 4 * alpha * w * s - (8 * s + 4) * ss,
            4 * alpha * w * s >= 0,
    ;
    assert(xx < t + 4 * s) by (nonlinear_arith)
        requires
            xx * ss < (t + 4 * s) * ss,
            ss > 0,
    ;
    assert(xx >= t - 12 * s - 4) by (nonlinear_arith)
        requires
            xx * ss >= (t - 12 * s - 4) * ss,
            ss > 0,
    ;
}

/// The point of the sphere that belongs to a point inside the unit disc has
/// length one: the squares of its three raw components add up to the
/// square of the raw number one, within 25 times the raw number one. That
/// is, the square of its length lies within `25 * 2^-32` of one.
pub proof fn lemma_on_sphere_is_unit(a: Scalar, b: Scalar)
    requires
        -ONE_RAW <= a.raw <= ONE_RAW,
        -ONE_RAW <= b.raw <= ONE_RAW,
        Vector::spec_in_disc(a, b),
    ensures
        ({
            let v = Vector::spec_on_sphere(a, b);
            let square = v.x.raw * v.x.raw + v.y.raw * v.y.raw + v.z.raw * v.z.raw;
            ONE_RAW * ONE_RAW - 25 * ONE_RAW <= square <= ONE_RAW * ONE_RAW + 25 * ONE_RAW
        }),
{
    let s = ONE_RAW as int;
    let one = Scalar::spec_one();
    let two = Scalar::spec_from_int(2);
    let aa = (a.raw * a.raw) / s;
    let bb = (b.raw * b.raw) / s;
    assert(0 <= a.raw * a.raw <= s * s && 0 <= b.raw * b.raw <= s * s) by (nonlinear_arith)
        requires
            -s <= a.raw <= s,
            -s <= b.raw <= s,
    ;
    assert(0 <= aa <= s && 0 <= bb <= s) by (nonlinear_arith)
        requires
            aa == (a.raw * a.raw) / s,
            bb == (b.raw * b.raw) / s,
            0 <= a.raw * a.raw <= s * s,
            0 <= b.raw * b.raw <= s * s,
            s > 0,
    ;
    assert(a.spec_mul(a).raw == aa && b.spec_mul(b).raw == bb) by {
        reveal(Scalar::spec_mul);
    }
    let sum = a.spec_mul(a).spec_add(b.spec_mul(b));
    assert(sum.raw == aa + bb);
    let w = s - sum.raw;
    assert(1 <= w <= s);
    let rest = one.spec_sub(sum);
    assert(rest.raw == w);
    let n = w * s;
    assert(n > 0) by (nonlinear_arith)
        requires
            n == w * s,
            w >= 1,
            s > 0,
    ;
    lemma_floor_sqrt_exists(n);
    let root = rest.spec_sqrt();
    assert(root.raw == floor_sqrt(n)) by {
        reveal(Scalar::spec_sqrt);
        assert(floor_sqrt(n) <= s) by (nonlinear_arith)
            requires
                0 <= floor_sqrt(n),
                floor_sqrt(n) * floor_sqrt(n) <= n,
                n == w * s,
                w <= s,
                s > 0,
        ;
    }
    lemma_mul_whole(2, a);
    lemma_mul_whole(2, b);
    lemma_mul_whole(2, sum);
    let v = Vector::spec_on_sphere(a, b);
    assert(v.z.raw == s - 2 * sum.raw);
    assert(v.x.raw == quotient(2 * a.raw * root.raw, s) && v.y.raw == quotient(
        2 * b.raw * root.raw,
        s,
    )) by {
        reveal(Scalar::spec_mul);
        assert(root.raw <= s) by (nonlinear_arith)
            requires
                0 <= root.raw,
                root.raw * root.raw <= n,
                n == w * s,
                w <= s,
                s > 0,
        ;
        assert(-2 * s * s <= (2 * a.raw) * root.raw <= 2 * s * s && -2 * s * s <= (2 * b.raw)
            * root.raw <= 2 * s * s) by (nonlinear_arith)
            requires
                -s <= a.raw <= s,
                -s <= b.raw <= s,
                0 <= root.raw <= s,
        ;
        assert(-2 * s <= quotient((2 * a.raw) * root.raw, s) <= 2 * s && -2 * s <= quotient(
            (2 * b.raw) * root.raw,
            s,
        ) <= 2 * s) by (nonlinear_arith)
            requires
                -2 * s * s <= (2 * a.raw) * root.raw <= 2 * s * s,
                -2 * s * s <= (2 * b.raw) * root.raw <= 2 * s * s,
                s == 0x1_0000_0000,
        ;
    }
    lemma_square_of_rounded_product(a.raw as int, root.raw as int, w, aa, v.x.raw as int);
    lemma_square_of_rounded_product(b.raw as int, root.raw as int, w, bb, v.y.raw as int);
    assert(v.z.raw * v.z.raw == s * s - 4 * aa * w - 4 * bb * w) by (nonlinear_arith)
        requires
            v.z.raw == s - 2 * (aa + bb),
            w == s - (aa + bb),
    ;
}

/// Every direction that `random` can give has length one: the squares of
/// its three raw components add up to the square of the raw number one,
/// within 25 times the raw number one.
pub proof fn lemma_random_is_unit(v: Vector)
    requires
        v.spec_is_random(),
    ensures
        ONE_RAW * ONE_RAW - 25 * ONE_RAW <= v.x.raw * v.x.raw + v.y.raw * v.y.raw + v.z.raw
            * v.z.raw <= ONE_RAW * ONE_RAW + 25 * ONE_RAW,
{
    let (a, b) = choose|a: Scalar, b: Scalar|
        {
            &&& -ONE_RAW <= a.raw <= ONE_RAW
            &&& -ONE_RAW <= b.raw <= ONE_RAW
            &&& Vector::spec_in_disc(a, b)
            &&& v == #[trigger] Vector::spec_on_sphere(a, b)
        };
    lemma_on_sphere_is_unit(a, b);
}

/// Turning a vector round turns its dot products round: the dot product
/// of the negated vector with another is at most the negated dot product,
/// for a vector none of whose components is the smallest number.
pub proof fn lemma_dot_negated(v: Vector, w: Vector)
    requires
        v.x.raw > i64::MIN,
        v.y.raw > i64::MIN,
        v.z.raw > i64::MIN,
    ensures
        v.spec_neg().spec_dot(w).raw <= -v.spec_dot(w).raw,
{
    lemma_mul_negated(v.x, w.x);
    lemma_mul_negated(v.y, w.y);
    lemma_mul_negated(v.z, w.z);
}

/// One component of a vector that is divided by its length: with `q` the
/// quotient of `a * 2^32` by `m`, rounded toward zero, the product `q * m`
/// lies within `m` of `a * 2^32` without passing it.
proof fn lemma_component_over_length(a: Scalar, m: Scalar) -> (bounds: (int, int))
    requires
        -0x4000_0000_0000 <= a.raw <= 0x4000_0000_0000,
        m.raw >= 0x1_0000,
    ensures
        bounds.0 == magnitude(a.spec_div(m).raw as int),
        bounds.1 == magnitude(a.raw as int),
        (bounds.0 * m.raw) * (bounds.0 * m.raw) <= (bounds.1 * ONE_RAW) * (bounds.1 * ONE_RAW),
        ((bounds.0 + 1) * m.raw) * ((bounds.0 + 1) * m.raw) > (bounds.1 * ONE_RAW) * (bounds.1
            * ONE_RAW),
        a.spec_div(m).raw * a.spec_div(m).raw == bounds.0 * bounds.0,
        a.raw * a.raw == bounds.1 * bounds.1,
{
    reveal(Scalar::spec_from_ratio);
    let s = ONE_RAW as int;
    let size = magnitude(a.raw as int);
    let top = size * s;
    let d = m.raw as int;
    let q = top / d;
    assert(magnitude(a.raw * s) == top) by (nonlinear_arith)
        requires
            top == magnitude(a.raw as int) * s,
            s > 0,
    ;
    assert(a.raw * s < 0 <==> a.raw < 0) by (nonlinear_arith)
        requires
            s > 0,
    ;
    assert(0 <= top <= 0x4000_0000_0000 * 0x1_0000_0000) by (nonlinear_arith)
        requires
            top == size * s,
            0 <= size <= 0x4000_0000_0000,
            s == 0x1_0000_0000,
    ;
    assert(q * d <= top < (q + 1) * d && 0 <= q <= top) by {
        vstd::arithmetic::div_mod::lemma_fundamental_div_mod(top, d);
        vstd::arithmetic::div_mod::lemma_mod_bound(top, d);
        assert(d * q == q * d) by (nonlinear_arith);
        assert((q + 1) * d == q * d + d) by (nonlinear_arith);
        assert(q >= 0 && q <= top) by (nonlinear_arith)
            requires
                q * d <= top,
                top < q * d + d,
                d >= 1,
                top >= 0,
        ;
    }
    assert(q <= 0x4000_0000_0000_0000) by (nonlinear_arith)
        requires
            q * d <= top,
            top <= 0x4000_0000_0000 * 0x1_0000_0000,
            d >= 0x1_0000,
            q >= 0,
    ;
    let result = a.spec_div(m).raw as int;
    assert(result == q || result == -q);
    assert(result * result == q * q) by (nonlinear_arith)
        requires
            result == q || result == -q,
    ;
    assert(a.raw * a.raw == size * size) by (nonlinear_arith)
        requires
            size == a.raw || size == -a.raw,
    ;
    let low = q * d;
    let high = (q + 1) * d;
    assert(low * low <= top * top) by (nonlinear_arith)
        requires
            0 <= low <= top,
    ;
    assert(high * high > top * top) by (nonlinear_arith)
        requires
            0 <= top < high,
    ;
    (q, size)
}

/// A vector divided by its length has length one, as far as rounding lets
/// it. With `n` the sum of the squares of the raw components of the
/// normalized vector and `m` the raw length of the vector:
/// `n * m^2 <= 2^64 * ((m + 1)^2 + 3 * 2^32)`, and the squares of the
/// magnitudes of the components, each raised by one, add up to more than
/// `2^64`. For a vector of length one or more that puts `n` within
/// `7 * 2^32` of `2^64`. All this holds of a vector whose length is not
/// zero and whose components lie within 16384 of zero.
pub proof fn lemma_normalize_is_unit(v: Vector)
    requires
        -0x4000_0000_0000 <= v.x.raw <= 0x4000_0000_0000,
        -0x4000_0000_0000 <= v.y.raw <= 0x4000_0000_0000,
        -0x4000_0000_0000 <= v.z.raw <= 0x4000_0000_0000,
        v.spec_magnitude().raw > 0,
    ensures
        ({
            let n = v.spec_normalize();
            let m = v.spec_magnitude().raw as int;
            let square = n.x.raw * n.x.raw + n.y.raw * n.y.raw + n.z.raw * n.z.raw;
            let raised = (magnitude(n.x.raw as int) + 1) * (magnitude(n.x.raw as int) + 1) + (
            magnitude(n.y.raw as int) + 1) * (magnitude(n.y.raw as int) + 1) + (magnitude(
                n.z.raw as int,
            ) + 1) * (magnitude(n.z.raw as int) + 1);
            &&& square * (m * m) <= (ONE_RAW * ONE_RAW) * ((m + 1) * (m + 1) + 3 * ONE_RAW)
            &&& raised > ONE_RAW * ONE_RAW
            &&& m >= ONE_RAW ==> ONE_RAW * ONE_RAW - 7 * ONE_RAW <= square <= ONE_RAW * ONE_RAW
                + 6 * ONE_RAW
        }),
{
    let s = ONE_RAW as int;
    let length = v.spec_magnitude();
    let m = length.raw as int;
    let xx = (v.x.raw * v.x.raw) / s;
    let yy = (v.y.raw * v.y.raw) / s;
    let zz = (v.z.raw * v.z.raw) / s;
    let vx = v.x.raw * v.x.raw;
    let vy = v.y.raw * v.y.raw;
    let vz = v.z.raw * v.z.raw;
    assert(0 <= vx <= 0x4000_0000_0000 * 0x4000_0000_0000 && 0 <= vy <= 0x4000_0000_0000
        * 0x4000_0000_0000 && 0 <= vz <= 0x4000_0000_0000 * 0x4000_0000_0000) by (nonlinear_arith)
        requires
            vx == v.x.raw * v.x.raw,
            vy == v.y.raw * v.y.raw,
            vz == v.z.raw * v.z.raw,
            -0x4000_0000_0000 <= v.x.raw <= 0x4000_0000_0000,
            -0x4000_0000_0000 <= v.y.raw <= 0x4000_0000_0000,
            -0x4000_0000_0000 <= v.z.raw <= 0x4000_0000_0000,
    ;
    assert(xx * s <= vx < xx * s + s && yy * s <= vy < yy * s + s && zz * s <= vz < zz * s + s
        && 0 <= xx <= 0x1000_0000_0000_0000 && 0 <= yy <= 0x1000_0000_0000_0000 && 0 <= zz
        <= 0x1000_0000_0000_0000) by (nonlinear_arith)
        requires
            xx == vx / s,
            yy == vy / s,
            zz == vz / s,
            0 <= vx <= 0x4000_0000_0000 * 0x4000_0000_0000,
            0 <= vy <= 0x4000_0000_0000 * 0x4000_0000_0000,
            0 <= vz <= 0x4000_0000_0000 * 0x4000_0000_0000,
            s == 0x1_0000_0000,
    ;
    assert(v.x.spec_mul(v.x).raw == xx && v.y.spec_mul(v.y).raw == yy && v.z.spec_mul(v.z).raw
        == zz) by {
        reveal(Scalar::spec_mul);
    }
    let d = xx + yy + zz;
    assert(v.spec_magnitude_sqr().raw == d);
    let n0 = d * s;
    assert(d > 0) by {
        reveal(Scalar::spec_sqrt);
    }
    assert(s <= n0 <= 0x3000_0000_0000_0000 * 0x1_0000_0000) by (nonlinear_arith)
        requires
            n0 == d * s,
            1 <= d <= 0x3000_0000_0000_0000,
            s == 0x1_0000_0000,
    ;
    lemma_floor_sqrt_exists(n0);
    assert(floor_sqrt(n0) < 0x1_0000_0000_0000) by (nonlinear_arith)
        requires
            0 <= floor_sqrt(n0),
            floor_sqrt(n0) * floor_sqrt(n0) <= n0,
            n0 <= 0x3000_0000_0000_0000 * 0x1_0000_0000,
    ;
    assert(m == floor_sqrt(n0)) by {
        reveal(Scalar::spec_sqrt);
    }
    assert(m >= 0x1_0000) by (nonlinear_arith)
        requires
            (m + 1) * (m + 1) > n0,
            n0 >= 0x1_0000 * 0x1_0000,
            m >= 0,
    ;
    let total = vx + vy + vz;
    assert(n0 <= total < n0 + 3 * s) by (nonlinear_arith)
        requires
            n0 == (xx + yy + zz) * s,
            total == vx + vy + vz,
            xx * s <= vx < xx * s + s,
            yy * s <= vy < yy * s + s,
            zz * s <= vz < zz * s + s,
    ;
    let (qx, ax) = lemma_component_over_length(v.x, length);
    let (qy, ay) = lemma_component_over_length(v.y, length);
    let (qz, az) = lemma_component_over_length(v.z, length);
    let n = v.spec_normalize();
    let square = n.x.raw * n.x.raw + n.y.raw * n.y.raw + n.z.raw * n.z.raw;
    let mm = m * m;
    let ss = s * s;
    assert(square == qx * qx + qy * qy + qz * qz);
    assert((qx * m) * (qx * m) == (qx * qx) * mm && (qy * m) * (qy * m) == (qy * qy) * mm && (qz
        * m) * (qz * m) == (qz * qz) * mm) by (nonlinear_arith)
        requires
            mm == m * m,
    ;
    assert((ax * s) * (ax * s) == vx * ss && (ay * s) * (ay * s) == vy * ss && (az * s) * (az * s)
        == vz * ss) by (nonlinear_arith)
        requires
            ss == s * s,
            vx == ax * ax,
            vy == ay * ay,
            vz == az * az,
    ;
    assert(square * mm <= total * ss) by (nonlinear_arith)
        requires
            square == qx * qx + qy * qy + qz * qz,
            total == vx + vy + vz,
            (qx * qx) * mm <= vx * ss,
            (qy * qy) * mm <= vy * ss,
            (qz * qz) * mm <= vz * ss,
    ;
    let over = (m + 1) * (m + 1) + 3 * s;
    assert(total * ss <= ss * over) by (nonlinear_arith)
        requires
            total < n0 + 3 * s,
            n0 < (m + 1) * (m + 1),
            over == (m + 1) * (m + 1) + 3 * s,
            ss > 0,
    ;
    let raised = (qx + 1) * (qx + 1) + (qy + 1) * (qy + 1) + (qz + 1) * (qz + 1);
    assert(((qx + 1) * m) * ((qx + 1) * m) == ((qx + 1) * (qx + 1)) * mm && ((qy + 1) * m) * ((qy
        + 1) * m) == ((qy + 1) * (qy + 1)) * mm && ((qz + 1) * m) * ((qz + 1) * m) == ((qz + 1)
        * (qz + 1)) * mm) by (nonlinear_arith)
        requires
            mm == m * m,
    ;
    assert(raised * mm > total * ss) by (nonlinear_arith)
        requires
            raised == (qx + 1) * (qx + 1) + (qy + 1) * (qy + 1) + (qz + 1) * (qz + 1),
            total == vx + vy + vz,
            ((qx + 1) * (qx + 1)) * mm > vx * ss,
            ((qy + 1) * (qy + 1)) * mm > vy * ss,
            ((qz + 1) * (qz + 1)) * mm > vz * ss,
    ;
    assert(total * ss >= mm * ss) by (nonlinear_arith)
        requires
            total >= n0,
            n0 >= m * m,
            mm == m * m,
            ss > 0,
    ;
    assert(raised > ss) by (nonlinear_arith)
        requires
            raised * mm > mm * ss,
            mm > 0,
    ;
    if m >= s {
        assert(ss * over <= (ss + 6 * s) * mm) by (nonlinear_arith)
            requires
                over == (m + 1) * (m + 1) + 3 * s,
                mm == m * m,
                ss == s * s,
                m >= s,
                s >= 2,
        ;
        assert(square <= ss + 6 * s) by (nonlinear_arith)
            requires
                square * mm <= (ss + 6 * s) * mm,
                mm > 0,
        ;
        assert(qx <= s + 3 && qy <= s + 3 && qz <= s + 3) by (nonlinear_arith)
            requires
                qx * qx + qy * qy + qz * qz <= s * s + 6 * s,
                qx >= 0,
                qy >= 0,
                qz >= 0,
                s > 0,
        ;
        assert(raised == square + 2 * (qx + qy + qz) + 3) by (nonlinear_arith)
            requires
                raised == (qx + 1) * (qx + 1) + (qy + 1) * (qy + 1) + (qz + 1) * (qz + 1),
                square == qx * qx + qy * qy + qz * qz,
        ;
    }
}

} // verus!
