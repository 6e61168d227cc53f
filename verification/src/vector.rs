//! Three-component vectors over the fixed-point scalar.
//!
//! Sums, differences and negation are exact; products, the magnitude and
//! normalization truncate toward zero on the raw grid, and each operation's
//! contract pins the truncated result exactly.

use crate::scalar::{
    div_trunc, fits_raw, fx_mul, fx_recip, fx_sqrt, lemma_fx_square_nonneg,
    lemma_sqrt_floor_bounds, sqrt_floor, Scalar, SCALE,
};
use vstd::prelude::*;

verus! {

/// An ordered triple of fixed-point components.
#[derive(Clone, Copy, PartialEq, Eq, Structural, Debug)]
pub struct Vector {
    pub x: Scalar,
    pub y: Scalar,
    pub z: Scalar,
}

/// The three-component vector is the only instantiation the integrator uses.
pub type Vector3 = Vector;

/// The vector whose components are all zero.
pub open spec fn spec_zero() -> Vector {
    Vector { x: Scalar { raw: 0 }, y: Scalar { raw: 0 }, z: Scalar { raw: 0 } }
}

/// The vector with the given raw component values.
pub open spec fn spec_vector(x: int, y: int, z: int) -> Vector
    recommends
        fits_raw(x),
        fits_raw(y),
        fits_raw(z),
{
    Vector { x: Scalar { raw: x as i64 }, y: Scalar { raw: y as i64 }, z: Scalar { raw: z as i64 } }
}

/// Whether the componentwise sum of `a` and `b` stays representable.
pub open spec fn add_in_range(a: Vector, b: Vector) -> bool {
    fits_raw(a.x@ + b.x@) && fits_raw(a.y@ + b.y@) && fits_raw(a.z@ + b.z@)
}

/// The exact componentwise sum.
pub open spec fn spec_add(a: Vector, b: Vector) -> Vector
    recommends
        add_in_range(a, b),
{
    spec_vector(a.x@ + b.x@, a.y@ + b.y@, a.z@ + b.z@)
}

/// Whether the componentwise difference of `a` and `b` stays representable.
pub open spec fn sub_in_range(a: Vector, b: Vector) -> bool {
    fits_raw(a.x@ - b.x@) && fits_raw(a.y@ - b.y@) && fits_raw(a.z@ - b.z@)
}

/// The exact componentwise difference.
pub open spec fn spec_sub(a: Vector, b: Vector) -> Vector
    recommends
        sub_in_range(a, b),
{
    spec_vector(a.x@ - b.x@, a.y@ - b.y@, a.z@ - b.z@)
}

/// Whether every negated component stays representable.
pub open spec fn neg_in_range(a: Vector) -> bool {
    fits_raw(-a.x@) && fits_raw(-a.y@) && fits_raw(-a.z@)
}

/// The exact componentwise negation.
pub open spec fn spec_inverse(a: Vector) -> Vector
    recommends
        neg_in_range(a),
{
    spec_vector(-a.x@, -a.y@, -a.z@)
}

/// Whether scaling every component by the raw factor `s` stays representable.
pub open spec fn scale_in_range(a: Vector, s: int) -> bool {
    fits_raw(fx_mul(a.x@, s)) && fits_raw(fx_mul(a.y@, s)) && fits_raw(fx_mul(a.z@, s))
}

/// Every component multiplied by the raw factor `s`, truncated.
pub open spec fn spec_scale(a: Vector, s: int) -> Vector
    recommends
        scale_in_range(a, s),
{
    spec_vector(fx_mul(a.x@, s), fx_mul(a.y@, s), fx_mul(a.z@, s))
}

/// Whether the componentwise product of `a` and `b` stays representable.
pub open spec fn hadamard_in_range(a: Vector, b: Vector) -> bool {
    fits_raw(fx_mul(a.x@, b.x@)) && fits_raw(fx_mul(a.y@, b.y@)) && fits_raw(fx_mul(a.z@, b.z@))
}

/// The componentwise (Hadamard) product, each product truncated.
pub open spec fn spec_hadamard(a: Vector, b: Vector) -> Vector
    recommends
        hadamard_in_range(a, b),
{
    spec_vector(fx_mul(a.x@, b.x@), fx_mul(a.y@, b.y@), fx_mul(a.z@, b.z@))
}

/// The sum of the truncated pairwise component products.
pub open spec fn spec_dot(a: Vector, b: Vector) -> int {
    fx_mul(a.x@, b.x@) + fx_mul(a.y@, b.y@) + fx_mul(a.z@, b.z@)
}

/// Whether the dot product and its partial sums stay representable.
pub open spec fn dot_in_range(a: Vector, b: Vector) -> bool {
    hadamard_in_range(a, b) && fits_raw(fx_mul(a.x@, b.x@) + fx_mul(a.y@, b.y@)) && fits_raw(
        spec_dot(a, b),
    )
}

/// The right-handed cross product, each pairwise product truncated.
pub open spec fn spec_cross(a: Vector, b: Vector) -> Vector
    recommends
        cross_in_range(a, b),
{
    spec_vector(
        fx_mul(a.y@, b.z@) - fx_mul(a.z@, b.y@),
        fx_mul(a.z@, b.x@) - fx_mul(a.x@, b.z@),
        fx_mul(a.x@, b.y@) - fx_mul(a.y@, b.x@),
    )
}

/// Whether every pairwise product and difference of the cross product
/// stays representable.
pub open spec fn cross_in_range(a: Vector, b: Vector) -> bool {
    &&& fits_raw(fx_mul(a.y@, b.z@))
    &&& fits_raw(fx_mul(a.z@, b.y@))
    &&& fits_raw(fx_mul(a.z@, b.x@))
    &&& fits_raw(fx_mul(a.x@, b.z@))
    &&& fits_raw(fx_mul(a.x@, b.y@))
    &&& fits_raw(fx_mul(a.y@, b.x@))
    &&& fits_raw(fx_mul(a.y@, b.z@) - fx_mul(a.z@, b.y@))
    &&& fits_raw(fx_mul(a.z@, b.x@) - fx_mul(a.x@, b.z@))
    &&& fits_raw(fx_mul(a.x@, b.y@) - fx_mul(a.y@, b.x@))
}

/// The sum of the truncated squares of the components.
pub open spec fn spec_magnitude_squared(a: Vector) -> int {
    fx_mul(a.x@, a.x@) + fx_mul(a.y@, a.y@) + fx_mul(a.z@, a.z@)
}

/// Whether the squared magnitude stays representable. Its three terms are
/// nonnegative, so a representable total bounds every partial sum too.
pub open spec fn msq_in_range(a: Vector) -> bool {
    fits_raw(spec_magnitude_squared(a))
}

/// Raw length of the vector: the square root of the squared magnitude.
pub open spec fn spec_magnitude(a: Vector) -> int {
    fx_sqrt(spec_magnitude_squared(a))
}

/// The unit vector in the direction of `a`; a vector whose magnitude
/// truncates to zero is returned unchanged.
pub open spec fn spec_normalize(a: Vector) -> Vector {
    if spec_magnitude(a) > 0 {
        spec_scale(a, fx_recip(spec_magnitude(a)))
    } else {
        a
    }
}

impl Vector {
    /// The vector with the given components.
    pub fn new(x: Scalar, y: Scalar, z: Scalar) -> (r: Vector)
        ensures
            r == (Vector { x, y, z }),
    {
        Vector { x, y, z }
    }

    /// The zero vector.
    pub fn zero() -> (r: Vector)
        ensures
            r == spec_zero(),
    {
        Vector { x: Scalar::zero(), y: Scalar::zero(), z: Scalar::zero() }
    }

    /// The unit vector along the first axis.
    pub fn x_axis() -> (r: Vector)
        ensures
            r == spec_vector(SCALE as int, 0, 0),
    {
        Vector { x: Scalar { raw: SCALE }, y: Scalar::zero(), z: Scalar::zero() }
    }

    /// The unit vector along the second axis.
    pub fn y_axis() -> (r: Vector)
        ensures
            r == spec_vector(0, SCALE as int, 0),
    {
        Vector { x: Scalar::zero(), y: Scalar { raw: SCALE }, z: Scalar::zero() }
    }

    /// The unit vector along the third axis.
    pub fn z_axis() -> (r: Vector)
        ensures
            r == spec_vector(0, 0, SCALE as int),
    {
        Vector { x: Scalar::zero(), y: Scalar::zero(), z: Scalar { raw: SCALE } }
    }

    /// The first component.
    pub fn x(&self) -> (r: Scalar)
        ensures
            r == self.x,
    {
        self.x
    }

    /// The second component.
    pub fn y(&self) -> (r: Scalar)
        ensures
            r == self.y,
    {
        self.y
    }

    /// The third component.
    pub fn z(&self) -> (r: Scalar)
        ensures
            r == self.z,
    {
        self.z
    }

    /// The component at position `i`; calling past the end is a caller bug.
    pub fn get(&self, i: usize) -> (r: Scalar)
        requires
            i < 3,
        ensures
            i == 0 ==> r == self.x,
            i == 1 ==> r == self.y,
            i == 2 ==> r == self.z,
    {
        if i == 0 {
            self.x
        } else if i == 1 {
            self.y
        } else {
            self.z
        }
    }

    /// Replaces the component at position `i`; past the end is a caller bug.
    pub fn set(&mut self, i: usize, value: Scalar)
        requires
            i < 3,
        ensures
            i == 0 ==> *final(self) == (Vector { x: value, ..*old(self) }),
            i == 1 ==> *final(self) == (Vector { y: value, ..*old(self) }),
            i == 2 ==> *final(self) == (Vector { z: value, ..*old(self) }),
    {
        if i == 0 {
            self.x = value;
        } else if i == 1 {
            self.y = value;
        } else {
            self.z = value;
        }
    }

    /// A new vector with every component negated; the receiver is unchanged.
    pub fn inverse(&self) -> (r: Vector)
        requires
            neg_in_range(*self),
        ensures
            r == spec_inverse(*self),
    {
        Vector { x: self.x.neg(), y: self.y.neg(), z: self.z.neg() }
    }

    /// The exact componentwise sum of the two vectors.
    pub fn add(&self, rhs: &Vector) -> (r: Vector)
        requires
            add_in_range(*self, *rhs),
        ensures
            r == spec_add(*self, *rhs),
    {
        Vector { x: self.x.add(&rhs.x), y: self.y.add(&rhs.y), z: self.z.add(&rhs.z) }
    }

    /// Accumulates the exact componentwise sum in place.
    pub fn add_assign(&mut self, rhs: &Vector)
        requires
            add_in_range(*old(self), *rhs),
        ensures
            *final(self) == spec_add(*old(self), *rhs),
    {
        *self = self.add(rhs);
    }

    /// The exact componentwise difference of the two vectors.
    pub fn sub(&self, rhs: &Vector) -> (r: Vector)
        requires
            sub_in_range(*self, *rhs),
        ensures
            r == spec_sub(*self, *rhs),
    {
        Vector { x: self.x.sub(&rhs.x), y: self.y.sub(&rhs.y), z: self.z.sub(&rhs.z) }
    }

    /// Every component multiplied by the scalar, truncated.
    pub fn mul_scalar(&self, s: Scalar) -> (r: Vector)
        requires
            scale_in_range(*self, s@),
        ensures
            r == spec_scale(*self, s@),
    {
        Vector { x: self.x.mul(&s), y: self.y.mul(&s), z: self.z.mul(&s) }
    }

    /// Scales every component by the scalar in place.
    pub fn mul_assign_scalar(&mut self, s: Scalar)
        requires
            scale_in_range(*old(self), s@),
        ensures
            *final(self) == spec_scale(*old(self), s@),
    {
        *self = self.mul_scalar(s);
    }

    /// The componentwise (Hadamard) product of the two vectors.
    pub fn mul_vector(&self, rhs: &Vector) -> (r: Vector)
        requires
            hadamard_in_range(*self, *rhs),
        ensures
            r == spec_hadamard(*self, *rhs),
    {
        Vector { x: self.x.mul(&rhs.x), y: self.y.mul(&rhs.y), z: self.z.mul(&rhs.z) }
    }

    /// Multiplies componentwise in place.
    pub fn mul_assign_vector(&mut self, rhs: &Vector)
        requires
            hadamard_in_range(*old(self), *rhs),
        ensures
            *final(self) == spec_hadamard(*old(self), *rhs),
    {
        *self = self.mul_vector(rhs);
    }
}

impl Vector {
    /// The sum of the truncated squares of the components; nonnegative.
    pub fn magnitude_squared(&self) -> (r: Scalar)
        requires
            msq_in_range(*self),
        ensures
            r@ == spec_magnitude_squared(*self),
            r@ >= 0,
    {
        proof {
            lemma_fx_square_nonneg(self.x@);
            lemma_fx_square_nonneg(self.y@);
            lemma_fx_square_nonneg(self.z@);
        }
        self.x.mul(&self.x).add(&self.y.mul(&self.y)).add(&self.z.mul(&self.z))
    }

    /// The length of the vector: the square root of the squared magnitude,
    /// rounded down to the grid.
    pub fn magnitude(&self) -> (r: Scalar)
        requires
            msq_in_range(*self),
        ensures
            r@ == spec_magnitude(*self),
            r@ >= 0,
    {
        self.magnitude_squared().sqrt()
    }

    /// The sum of the truncated pairwise component products.
    pub fn dot(&self, rhs: &Vector) -> (r: Scalar)
        requires
            dot_in_range(*self, *rhs),
        ensures
            r@ == spec_dot(*self, *rhs),
    {
        self.x.mul(&rhs.x).add(&self.y.mul(&rhs.y)).add(&self.z.mul(&rhs.z))
    }

    /// The right-handed cross product of the two vectors.
    pub fn cross(&self, rhs: &Vector) -> (r: Vector)
        requires
            cross_in_range(*self, *rhs),
        ensures
            r == spec_cross(*self, *rhs),
    {
        Vector::new(
            self.y().mul(&rhs.z()).sub(&self.z().mul(&rhs.y())),
            self.z().mul(&rhs.x()).sub(&self.x().mul(&rhs.z())),
            self.x().mul(&rhs.y()).sub(&self.y().mul(&rhs.x())),
        )
    }

    /// A unit-length vector in the same direction; a vector whose magnitude
    /// truncates to zero — in particular the zero vector — comes back
    /// unchanged rather than dividing by zero.
    pub fn normalize(&self) -> (r: Vector)
        requires
            msq_in_range(*self),
        ensures
            r == spec_normalize(*self),
            *self == spec_zero() ==> r == *self,
    {
        let length = self.magnitude();
        if length.raw > 0 {
            proof {
                lemma_normalize_in_range(*self);
            }
            self.mul_scalar(length.recip())
        } else {
            *self
        }
    }
}

/// One scaled component of a normalization stays representable: a component
/// can exceed the magnitude only by about one grid cell, so dividing it by
/// the magnitude cannot leave the raw range.
proof fn lemma_scaled_component_fits(c: int, q: int, m: int)
    requires
        fits_raw(c),
        fx_mul(c, c) <= q,
        0 <= q,
        m == fx_sqrt(q),
        1 <= m,
    ensures
        fits_raw(fx_mul(c, fx_recip(m))),
        -(m + SCALE) <= c <= m + SCALE,
{
    let scale = SCALE as int;
    // The truncated square recovers the true square up to one grid cell.
    assert(0 <= c * c) by (nonlinear_arith);
    vstd::arithmetic::div_mod::lemma_fundamental_div_mod(c * c, scale);
    vstd::arithmetic::div_mod::lemma_mod_division_less_than_divisor(c * c, scale);
    assert(fx_mul(c, c) == (c * c) / scale);
    assert(c * c <= scale * ((c * c) / scale) + scale - 1);
    assert(c * c <= scale * q + scale - 1);
    // The magnitude squares back to at least `q * scale - 2m`.
    lemma_sqrt_floor_bounds((q * scale) as nat);
    assert(m * m <= q * scale < (m + 1) * (m + 1));
    assert(c * c < (m + 1) * (m + 1) + 1_000_000);
    // So the component is at most one unit above the magnitude.
    assert(-(m + 1_000_000) <= c <= m + 1_000_000) by (nonlinear_arith)
        requires
            c * c < (m + 1) * (m + 1) + 1_000_000,
            0 <= m,
    ;
    // The reciprocal of the magnitude is bounded by its defining division.
    let r = fx_recip(m);
    assert(r == (1_000_000_000_000int) / m);
    vstd::arithmetic::div_mod::lemma_div_pos_is_pos(1_000_000_000_000int, m);
    vstd::arithmetic::div_mod::lemma_div_nonincreasing(1_000_000_000_000int, m);
    vstd::arithmetic::div_mod::lemma_fundamental_div_mod(1_000_000_000_000int, m);
    vstd::arithmetic::div_mod::lemma_mod_division_less_than_divisor(1_000_000_000_000int, m);
    assert(0 <= r <= 1_000_000_000_000);
    assert(m * r <= 1_000_000_000_000);
    // Hence the product is bounded well inside the raw range.
    assert(-(1_000_000_000_000_000_000 + 1_000_000_000_000) <= c * r <= 1_000_000_000_000_000_000
        + 1_000_000_000_000) by (nonlinear_arith)
        requires
            -(m + 1_000_000) <= c <= m + 1_000_000,
            0 <= r <= 1_000_000_000_000,
            m * r <= 1_000_000_000_000,
    ;
    let t = c * r;
    let a = if t >= 0 { t } else { -t };
    vstd::arithmetic::div_mod::lemma_div_is_ordered(
        a,
        1_000_000_000_000_000_000int + 1_000_000_000_000int,
        scale,
    );
    vstd::arithmetic::div_mod::lemma_div_pos_is_pos(a, scale);
    assert(fx_mul(c, r) == if t >= 0 { a / scale } else { -(a / scale) });
}

/// Scaling a vector by the truncated reciprocal of its own magnitude keeps
/// every component representable.
proof fn lemma_normalize_in_range(v: Vector)
    requires
        spec_magnitude(v) > 0,
    ensures
        scale_in_range(v, fx_recip(spec_magnitude(v))),
{
    let q = spec_magnitude_squared(v);
    let m = spec_magnitude(v);
    lemma_fx_square_nonneg(v.x@);
    lemma_fx_square_nonneg(v.y@);
    lemma_fx_square_nonneg(v.z@);
    lemma_scaled_component_fits(v.x@, q, m);
    lemma_scaled_component_fits(v.y@, q, m);
    lemma_scaled_component_fits(v.z@, q, m);
}

/// Truncation bounds for one component of a normalization, all in squared
/// form: writing `n` for the scaled component and `u` for its truncated
/// square, the products `n * SCALE` and `c * r` agree to within one grid
/// step, and the component never exceeds the magnitude by more than one.
proof fn lemma_component_facts(c: int, q: int, m: int)
    requires
        fits_raw(c),
        fx_mul(c, c) <= q,
        0 <= q,
        m == fx_sqrt(q),
        SCALE <= m,
    ensures
        ({
            let s = SCALE as int;
            let r = fx_recip(m);
            let n = fx_mul(c, r);
            let u = fx_mul(n, n);
            let t = fx_mul(c, c);
            &&& 0 <= u
            &&& 0 <= t
            &&& s * u <= n * n < s * u + s
            &&& s * t <= c * c < s * t + s
            &&& (s * s) * (n * n) <= (c * c) * (r * r)
            &&& (c * c) * (r * r) < (s * s) * (n * n) + 2 * (s * s) * (m + s) + s * s
        }),
{
    let s = SCALE as int;
    let r = fx_recip(m);
    let n = fx_mul(c, r);
    let u = fx_mul(n, n);
    let t = fx_mul(c, c);
    lemma_scaled_component_fits(c, q, m);
    let a = if c >= 0 {
        c
    } else {
        -c
    };
    // The reciprocal of a magnitude of at least one lies in [0, 1].
    assert(r == (1_000_000_000_000int) / m);
    vstd::arithmetic::div_mod::lemma_div_pos_is_pos(1_000_000_000_000int, m);
    vstd::arithmetic::div_mod::lemma_fundamental_div_mod(1_000_000_000_000int, m);
    vstd::arithmetic::div_mod::lemma_mod_division_less_than_divisor(1_000_000_000_000int, m);
    assert(m * r <= 1_000_000_000_000);
    assert(r <= s) by (nonlinear_arith)
        requires
            1_000_000 <= m,
            0 <= r,
            m * r <= 1_000_000_000_000,
            s == 1_000_000,
    ;
    // The scaled component, unsigned: a * r divided by the grid, truncated.
    let nu = (a * r) / s;
    assert(0 <= a * r) by (nonlinear_arith)
        requires
            0 <= a,
            0 <= r,
    ;
    vstd::arithmetic::div_mod::lemma_fundamental_div_mod(a * r, s);
    vstd::arithmetic::div_mod::lemma_mod_division_less_than_divisor(a * r, s);
    vstd::arithmetic::div_mod::lemma_div_pos_is_pos(a * r, s);
    assert(s * nu <= a * r < s * nu + s);
    if c >= 0 {
        assert(c * r == a * r);
        assert(n == nu);
    } else {
        assert(-(c * r) == a * r) by (nonlinear_arith)
            requires
                a == -c,
        ;
        assert(n == -nu);
    }
    // `n` squares like `nu`, and `c * r` squares like `a * r`.
    assert(n * n == nu * nu && (c * r) * (a * r) == if c >= 0 {
        (a * r) * (a * r)
    } else {
        -((a * r) * (a * r))
    }) by (nonlinear_arith)
        requires
            n == if c >= 0 {
                nu
            } else {
                -nu
            },
            c >= 0 ==> c * r == a * r,
            c < 0 ==> -(c * r) == a * r,
    ;
    // The component stays within one unit of the magnitude, so `nu` does too.
    assert(a <= m + s);
    assert(nu <= m + s) by (nonlinear_arith)
        requires
            s * nu <= a * r,
            a <= m + s,
            0 <= r <= s,
            0 <= a,
            0 < s,
            0 <= nu,
    ;
    // Squared agreement of `s * nu` and `a * r`, then translated to `c`.
    assert((s * nu) * (s * nu) <= (a * r) * (a * r) && (a * r) * (a * r) < (s * nu + s) * (s * nu
        + s)) by (nonlinear_arith)
        requires
            0 <= s * nu <= a * r,
            a * r < s * nu + s,
    ;
    assert(a * a == c * c) by (nonlinear_arith)
        requires
            a == c || a == -c,
    ;
    assert((a * r) * (a * r) == (a * a) * (r * r)) by (nonlinear_arith);
    assert((s * s) * (n * n) <= (c * c) * (r * r) && (c * c) * (r * r) < (s * s) * (n * n) + 2 * (s
        * s) * nu + s * s) by (nonlinear_arith)
        requires
            n * n == nu * nu,
            (s * nu) * (s * nu) <= (a * r) * (a * r),
            (a * r) * (a * r) < (s * nu + s) * (s * nu + s),
            a * a == c * c,
            (a * r) * (a * r) == (a * a) * (r * r),
    ;
    assert((c * c) * (r * r) < (s * s) * (n * n) + 2 * (s * s) * (m + s) + s * s)
        by (nonlinear_arith)
        requires
            (c * c) * (r * r) < (s * s) * (n * n) + 2 * (s * s) * nu + s * s,
            nu <= m + s,
            0 < s,
    ;
    // Truncated squares of `n` and of `c` recover the true squares to
    // within one grid step.
    assert(0 <= n * n && 0 <= c * c) by (nonlinear_arith);
    vstd::arithmetic::div_mod::lemma_fundamental_div_mod(n * n, s);
    vstd::arithmetic::div_mod::lemma_mod_division_less_than_divisor(n * n, s);
    vstd::arithmetic::div_mod::lemma_div_pos_is_pos(n * n, s);
    assert(u == (n * n) / s);
    vstd::arithmetic::div_mod::lemma_fundamental_div_mod(c * c, s);
    vstd::arithmetic::div_mod::lemma_mod_division_less_than_divisor(c * c, s);
    vstd::arithmetic::div_mod::lemma_div_pos_is_pos(c * c, s);
    assert(t == (c * c) / s);
}

/// Law: normalizing a vector whose magnitude lies between one and a
/// thousand units yields a vector of unit magnitude up to truncation:
/// the raw magnitude of the result falls short of one by at most 4100
/// millionths and exceeds it by at most two.
pub proof fn lemma_normalize_unit_magnitude(v: Vector)
    requires
        SCALE <= spec_magnitude(v) <= 1000 * (SCALE as int),
    ensures
        SCALE - 4100 <= spec_magnitude(spec_normalize(v)),
        spec_magnitude(spec_normalize(v)) <= SCALE + 2,
{
    let s = SCALE as int;
    let q = spec_magnitude_squared(v);
    let m = spec_magnitude(v);
    let r = fx_recip(m);
    let c1 = v.x@;
    let c2 = v.y@;
    let c3 = v.z@;
    lemma_fx_square_nonneg(c1);
    lemma_fx_square_nonneg(c2);
    lemma_fx_square_nonneg(c3);
    lemma_normalize_in_range(v);
    let nv = spec_normalize(v);
    assert(nv == spec_scale(v, r));
    let n1 = fx_mul(c1, r);
    let n2 = fx_mul(c2, r);
    let n3 = fx_mul(c3, r);
    assert(nv.x@ == n1 && nv.y@ == n2 && nv.z@ == n3);
    let u1 = fx_mul(n1, n1);
    let u2 = fx_mul(n2, n2);
    let u3 = fx_mul(n3, n3);
    lemma_component_facts(c1, q, m);
    lemma_component_facts(c2, q, m);
    lemma_component_facts(c3, q, m);
    let q2 = spec_magnitude_squared(nv);
    assert(q2 == u1 + u2 + u3);
    let w = n1 * n1 + n2 * n2 + n3 * n3;
    let cc = c1 * c1 + c2 * c2 + c3 * c3;
    assert(s * q2 <= w < s * q2 + 3 * s);
    assert(s * q <= cc < s * q + 3 * s);
    lemma_sqrt_floor_bounds((q * s) as nat);
    assert(m * m <= q * s < (m + 1) * (m + 1));
    // Bounds for the truncated reciprocal of the magnitude.
    assert(r == 1_000_000_000_000int / m);
    vstd::arithmetic::div_mod::lemma_div_pos_is_pos(1_000_000_000_000int, m);
    vstd::arithmetic::div_mod::lemma_fundamental_div_mod(1_000_000_000_000int, m);
    vstd::arithmetic::div_mod::lemma_mod_division_less_than_divisor(1_000_000_000_000int, m);
    assert(s * s == 1_000_000_000_000int) by (nonlinear_arith)
        requires
            s == 1_000_000,
    ;
    assert(s * s - m < m * r <= s * s);
    assert(0 <= r <= s) by (nonlinear_arith)
        requires
            1_000_000 <= m,
            0 <= r,
            m * r <= 1_000_000_000_000,
            s == 1_000_000,
            r == 1_000_000_000_000int / m,
            0 <= 1_000_000_000_000int / m,
    ;
    // Upper chain: the normalized squares cannot exceed one by more than
    // a few grid steps.
    assert((s * s) * w <= cc * (r * r)) by (nonlinear_arith)
        requires
            w == n1 * n1 + n2 * n2 + n3 * n3,
            cc == c1 * c1 + c2 * c2 + c3 * c3,
            (s * s) * (n1 * n1) <= (c1 * c1) * (r * r),
            (s * s) * (n2 * n2) <= (c2 * c2) * (r * r),
            (s * s) * (n3 * n3) <= (c3 * c3) * (r * r),
    ;
    assert(s * q <= m * m + 2 * m) by (nonlinear_arith)
        requires
            q * s < (m + 1) * (m + 1),
    ;
    assert(cc <= m * m + 5 * m);
    assert(0 <= r * r) by (nonlinear_arith);
    assert(cc * (r * r) <= (m * m + 5 * m) * (r * r)) by (nonlinear_arith)
        requires
            cc <= m * m + 5 * m,
            0 <= r * r,
    ;
    assert((m * m + 5 * m) * (r * r) == (m * r) * (m * r) + 5 * ((m * r) * r))
        by (nonlinear_arith);
    assert((m * r) * (m * r) <= (s * s) * (s * s)) by (nonlinear_arith)
        requires
            0 <= m * r <= s * s,
    ;
    assert((m * r) * r <= (s * s) * s) by (nonlinear_arith)
        requires
            0 <= m * r <= s * s,
            0 <= r <= s,
    ;
    assert((s * s) * w <= (s * s) * (s * s + 5 * s)) by (nonlinear_arith)
        requires
            (s * s) * w <= (m * r) * (m * r) + 5 * ((m * r) * r),
            (m * r) * (m * r) <= (s * s) * (s * s),
            (m * r) * r <= (s * s) * s,
    ;
    assert(w <= s * s + 5 * s) by (nonlinear_arith)
        requires
            (s * s) * w <= (s * s) * (s * s + 5 * s),
            0 < s,
    ;
    assert(q2 <= s + 5) by (nonlinear_arith)
        requires
            s * q2 <= s * s + 5 * s,
            0 < s,
    ;
    assert(0 <= q2);
    let m2 = spec_magnitude(nv);
    lemma_sqrt_floor_bounds((q2 * s) as nat);
    assert(m2 * m2 <= q2 * s < (m2 + 1) * (m2 + 1));
    assert(q2 * s < (s + 3) * (s + 3)) by (nonlinear_arith)
        requires
            q2 <= s + 5,
            s == 1_000_000,
    ;
    assert(m2 <= s + 2) by (nonlinear_arith)
        requires
            m2 * m2 < (s + 3) * (s + 3),
            0 <= m2,
            0 < s,
    ;
    // Lower chain: the normalized squares fall short of one only by the
    // truncation losses, bounded through the magnitude.
    assert(cc * (r * r) < (s * s) * w + 6 * (s * s) * (m + s) + 3 * (s * s)) by (nonlinear_arith)
        requires
            w == n1 * n1 + n2 * n2 + n3 * n3,
            cc == c1 * c1 + c2 * c2 + c3 * c3,
            (c1 * c1) * (r * r) < (s * s) * (n1 * n1) + 2 * (s * s) * (m + s) + s * s,
            (c2 * c2) * (r * r) < (s * s) * (n2 * n2) + 2 * (s * s) * (m + s) + s * s,
            (c3 * c3) * (r * r) < (s * s) * (n3 * n3) + 2 * (s * s) * (m + s) + s * s,
    ;
    assert((s * q) * (r * r) <= cc * (r * r)) by (nonlinear_arith)
        requires
            s * q <= cc,
            0 <= r * r,
    ;
    assert((m * m) * (r * r) <= (s * q) * (r * r)) by (nonlinear_arith)
        requires
            m * m <= q * s,
            0 <= r * r,
    ;
    assert((m * m) * (r * r) == (m * r) * (m * r)) by (nonlinear_arith);
    assert(0 <= s * s - m);
    assert((s * s - m) * (s * s - m) < (m * r) * (m * r)) by (nonlinear_arith)
        requires
            0 <= s * s - m,
            s * s - m < m * r,
    ;
    assert((s * s) * (s * s) - 2 * ((s * s) * m) <= (s * s - m) * (s * s - m))
        by (nonlinear_arith);
    assert((s * s) * w > (s * s) * (s * s) - 2 * ((s * s) * m) - 6 * ((s * s) * (m + s)) - 3 * (s
        * s)) by (nonlinear_arith)
        requires
            cc * (r * r) < (s * s) * w + 6 * (s * s) * (m + s) + 3 * (s * s),
            (s * q) * (r * r) <= cc * (r * r),
            (m * m) * (r * r) <= (s * q) * (r * r),
            (m * m) * (r * r) == (m * r) * (m * r),
            (s * s - m) * (s * s - m) < (m * r) * (m * r),
            (s * s) * (s * s) - 2 * ((s * s) * m) <= (s * s - m) * (s * s - m),
    ;
    assert(w > s * s - 8 * m - 6 * s - 3) by (nonlinear_arith)
        requires
            (s * s) * w > (s * s) * (s * s) - 2 * ((s * s) * m) - 6 * ((s * s) * (m + s)) - 3 * (s
                * s),
            0 < s,
    ;
    assert(s * q2 > s * s - 8 * m - 9 * s - 3);
    assert(q2 * s > s * s - 8009 * s - 3);
    assert((s - 4100) * (s - 4100) < q2 * s) by (nonlinear_arith)
        requires
            q2 * s > s * s - 8009 * s - 3,
            s == 1_000_000,
    ;
    assert(s - 4100 < m2 + 1) by (nonlinear_arith)
        requires
            (s - 4100) * (s - 4100) < (m2 + 1) * (m2 + 1),
            0 <= s - 4100,
            0 <= m2 + 1,
    ;
}

/// Law: adding a vector and then subtracting it restores the original
/// exactly, whenever the sum is representable.
pub proof fn lemma_add_sub_cancel(a: Vector, b: Vector)
    requires
        add_in_range(a, b),
    ensures
        spec_sub(spec_add(a, b), b) == a,
{
}

/// Law: vector addition is commutative.
pub proof fn lemma_add_commutes(a: Vector, b: Vector)
    ensures
        spec_add(a, b) == spec_add(b, a),
{
}

/// Law: scaling a vector by a nonzero factor and then by the factor's
/// truncated reciprocal never carries a component past its starting
/// magnitude — the round trip restores the vector up to truncation losses,
/// and exactly where the divisions are exact.
pub proof fn lemma_scale_unscale_bounded(v: Vector, s: Scalar)
    requires
        s@ != 0,
        scale_in_range(v, s@),
    ensures
        ({
            let w = spec_scale(spec_scale(v, s@), fx_recip(s@));
            &&& (if v.x@ >= 0 {
                -v.x@ <= w.x@ <= v.x@
            } else {
                v.x@ <= w.x@ <= -v.x@
            })
            &&& (if v.y@ >= 0 {
                -v.y@ <= w.y@ <= v.y@
            } else {
                v.y@ <= w.y@ <= -v.y@
            })
            &&& (if v.z@ >= 0 {
                -v.z@ <= w.z@ <= v.z@
            } else {
                v.z@ <= w.z@ <= -v.z@
            })
        }),
{
    crate::scalar::lemma_scale_unscale_shrinks(v.x@, s@);
    crate::scalar::lemma_scale_unscale_shrinks(v.y@, s@);
    crate::scalar::lemma_scale_unscale_shrinks(v.z@, s@);
}

/// Law: the cross product of any vector with itself is the zero vector.
pub proof fn lemma_cross_self_is_zero(v: Vector)
    ensures
        spec_cross(v, v) == spec_zero(),
{
    vstd::arithmetic::mul::lemma_mul_is_commutative(v.y@, v.z@);
    vstd::arithmetic::mul::lemma_mul_is_commutative(v.z@, v.x@);
    vstd::arithmetic::mul::lemma_mul_is_commutative(v.x@, v.y@);
}

/// Law: a vector's dot product with itself is its squared magnitude.
pub proof fn lemma_dot_self_is_magnitude_squared(v: Vector)
    ensures
        spec_dot(v, v) == spec_magnitude_squared(v),
{
}

/// Law: normalizing the zero vector yields the zero vector, exactly.
pub proof fn lemma_normalize_zero()
    ensures
        spec_normalize(spec_zero()) == spec_zero(),
{
    assert(fx_mul(0, 0) == 0);
    assert(spec_magnitude_squared(spec_zero()) == 0);
    assert(spec_magnitude(spec_zero()) == sqrt_floor(0nat));
}

impl Default for Vector {
    /// The zero vector.
    fn default() -> (r: Vector)
        ensures
            r == spec_zero(),
    {
        Vector::zero()
    }
}

} // verus!
