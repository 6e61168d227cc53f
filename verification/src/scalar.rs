//! Exact fixed-point scalar arithmetic.
//!
//! A `Scalar` stores a real quantity as a signed count of millionths, so
//! every operation is plain integer arithmetic and has an exact contract.
//! Products and reciprocals truncate toward zero, mirroring the rounding
//! of a hardware divide; sums, differences and negation are exact.

use vstd::prelude::*;

verus! {

/// Number of raw units in 1.0: a `Scalar` with `raw == SCALE` is one.
pub const SCALE: i64 = 1_000_000;

/// Whether a mathematical integer fits in the raw representation.
pub open spec fn fits_raw(v: int) -> bool {
    i64::MIN <= v <= i64::MAX
}

/// Integer division truncating toward zero, as the hardware divide does:
/// the magnitudes are divided and the usual sign rule is applied.
pub open spec fn div_trunc(a: int, b: int) -> int
    recommends
        b != 0,
{
    let m = if a >= 0 { a } else { -a };
    let n = if b >= 0 { b } else { -b };
    if (a >= 0) == (b >= 0) {
        m / n
    } else {
        -(m / n)
    }
}

/// Raw value of the product of two fixed-point quantities.
pub open spec fn fx_mul(a: int, b: int) -> int {
    div_trunc(a * b, SCALE as int)
}

/// Raw value of the reciprocal of a fixed-point quantity.
pub open spec fn fx_recip(a: int) -> int
    recommends
        a != 0,
{
    div_trunc((SCALE * SCALE) as int, a)
}

/// Floor of the square root of a natural number, by halving the root of
/// the quotient by four and correcting the last unit.
pub open spec fn sqrt_floor(n: nat) -> nat
    decreases n,
{
    if n == 0 {
        0
    } else {
        let h = 2 * sqrt_floor(n / 4);
        if (h + 1) * (h + 1) <= n {
            h + 1
        } else {
            h
        }
    }
}

/// `sqrt_floor(n)` is the largest natural number whose square is at most `n`.
pub proof fn lemma_sqrt_floor_bounds(n: nat)
    ensures
        sqrt_floor(n) * sqrt_floor(n) <= n,
        n < (sqrt_floor(n) + 1) * (sqrt_floor(n) + 1),
    decreases n,
{
    if n == 0 {
        assert(sqrt_floor(n) * sqrt_floor(n) <= n && n < (sqrt_floor(n) + 1) * (sqrt_floor(n)
            + 1)) by (nonlinear_arith)
            requires
                n == 0,
                sqrt_floor(n) == 0,
        ;
    } else {
        lemma_sqrt_floor_bounds(n / 4);
        let r = sqrt_floor(n / 4);
        let h = 2 * r;
        vstd::arithmetic::div_mod::lemma_fundamental_div_mod(n as int, 4);
        assert(h * h <= n) by (nonlinear_arith)
            requires
                r * r <= n / 4,
                h == 2 * r,
                4 * (n / 4) <= n,
        ;
        assert(n < (h + 2) * (h + 2)) by (nonlinear_arith)
            requires
                n / 4 < (r + 1) * (r + 1),
                h == 2 * r,
                n < 4 * (n / 4) + 4,
        ;
        if (h + 1) * (h + 1) <= n {
            assert(sqrt_floor(n) == h + 1);
        } else {
            assert(sqrt_floor(n) == h);
        }
    }
}

/// Any natural number whose square brackets `n` is `sqrt_floor(n)`.
pub proof fn lemma_sqrt_floor_unique(n: nat, r: nat)
    requires
        r * r <= n,
        n < (r + 1) * (r + 1),
    ensures
        r == sqrt_floor(n),
{
    let s = sqrt_floor(n);
    lemma_sqrt_floor_bounds(n);
    if r < s {
        assert((r + 1) * (r + 1) <= s * s) by (nonlinear_arith)
            requires
                r + 1 <= s,
        ;
    }
    if s < r {
        assert((s + 1) * (s + 1) <= r * r) by (nonlinear_arith)
            requires
                s + 1 <= r,
        ;
    }
}

/// Raw value of `b` raised to the natural power `n`: one followed by `n`
/// truncating products.
pub open spec fn fx_pow(b: int, n: nat) -> int
    decreases n,
{
    if n == 0 {
        SCALE as int
    } else {
        fx_mul(fx_pow(b, (n - 1) as nat), b)
    }
}

/// Raw value of `b` raised to a whole power of either sign; a negative
/// power raises the truncated reciprocal instead.
pub open spec fn fx_powi(b: int, n: int) -> int
    recommends
        b != 0,
{
    if n >= 0 {
        fx_pow(b, n as nat)
    } else {
        fx_pow(fx_recip(b), (-n) as nat)
    }
}

/// A product of nonnegative factors, truncated, stays nonnegative.
pub proof fn lemma_fx_mul_nonneg(a: int, b: int)
    requires
        0 <= a,
        0 <= b,
    ensures
        0 <= fx_mul(a, b),
{
    assert(0 <= a * b) by (nonlinear_arith)
        requires
            0 <= a,
            0 <= b,
    ;
    vstd::arithmetic::div_mod::lemma_div_pos_is_pos(a * b, SCALE as int);
}

/// Multiplying a nonnegative quantity by a factor of at most one cannot
/// increase it.
pub proof fn lemma_fx_mul_le(a: int, b: int)
    requires
        0 <= a,
        0 <= b <= SCALE,
    ensures
        fx_mul(a, b) <= a,
{
    assert(0 <= a * b <= a * SCALE) by (nonlinear_arith)
        requires
            0 <= a,
            0 <= b <= SCALE,
    ;
    vstd::arithmetic::div_mod::lemma_div_is_ordered(a * b, a * SCALE, SCALE as int);
    vstd::arithmetic::div_mod::lemma_div_by_multiple(a, SCALE as int);
}

/// Multiplying a nonnegative quantity by a factor of at least one cannot
/// decrease it.
pub proof fn lemma_fx_mul_ge(a: int, b: int)
    requires
        0 <= a,
        SCALE <= b,
    ensures
        a <= fx_mul(a, b),
{
    assert(a * SCALE <= a * b) by (nonlinear_arith)
        requires
            0 <= a,
            SCALE <= b,
    ;
    vstd::arithmetic::div_mod::lemma_div_is_ordered(a * SCALE, a * b, SCALE as int);
    vstd::arithmetic::div_mod::lemma_div_by_multiple(a, SCALE as int);
}

/// A truncated square is nonnegative whatever the sign of its argument.
pub proof fn lemma_fx_square_nonneg(a: int)
    ensures
        0 <= fx_mul(a, a),
{
    assert(0 <= a * a) by (nonlinear_arith);
    vstd::arithmetic::div_mod::lemma_div_pos_is_pos(a * a, SCALE as int);
}

/// A truncated product in sign-magnitude form: the magnitudes multiply and
/// divide, and the usual sign rule applies.
pub proof fn lemma_fx_mul_abs(a: int, b: int)
    ensures
        ({
            let aa = if a >= 0 {
                a
            } else {
                -a
            };
            let bb = if b >= 0 {
                b
            } else {
                -b
            };
            &&& 0 <= (aa * bb) / (SCALE as int)
            &&& ((a >= 0) == (b >= 0)) ==> fx_mul(a, b) == (aa * bb) / (SCALE as int)
            &&& ((a >= 0) != (b >= 0)) ==> fx_mul(a, b) == -((aa * bb) / (SCALE as int))
        }),
{
    let aa = if a >= 0 {
        a
    } else {
        -a
    };
    let bb = if b >= 0 {
        b
    } else {
        -b
    };
    assert(0 <= aa * bb && a * b == if (a >= 0) == (b >= 0) {
        aa * bb
    } else {
        -(aa * bb)
    }) by (nonlinear_arith)
        requires
            aa == if a >= 0 {
                a
            } else {
                -a
            },
            bb == if b >= 0 {
                b
            } else {
                -b
            },
    ;
    vstd::arithmetic::div_mod::lemma_div_pos_is_pos(aa * bb, SCALE as int);
    if (a >= 0) != (b >= 0) && aa * bb == 0 {
        vstd::arithmetic::div_mod::lemma_div_of0(SCALE as int);
    }
}

/// Multiplying by the zero quantity gives zero exactly.
pub proof fn lemma_fx_mul_zero(a: int)
    ensures
        fx_mul(a, 0) == 0,
{
    vstd::arithmetic::div_mod::lemma_div_of0(SCALE as int);
}

/// Multiplying by the unit quantity changes nothing: the scaling by
/// `SCALE` and the division by `SCALE` cancel exactly.
pub proof fn lemma_fx_mul_one(a: int)
    ensures
        fx_mul(a, SCALE as int) == a,
{
    if a >= 0 {
        vstd::arithmetic::div_mod::lemma_div_by_multiple(a, SCALE as int);
    } else {
        vstd::arithmetic::div_mod::lemma_div_by_multiple(-a, SCALE as int);
        assert((-a) * SCALE == -(a * SCALE)) by (nonlinear_arith);
    }
}

/// A power of a nonnegative base is nonnegative.
pub proof fn lemma_fx_pow_nonneg(b: int, n: nat)
    requires
        0 <= b,
    ensures
        0 <= fx_pow(b, n),
    decreases n,
{
    if n > 0 {
        lemma_fx_pow_nonneg(b, (n - 1) as nat);
        lemma_fx_mul_nonneg(fx_pow(b, (n - 1) as nat), b);
    }
}

/// Powers of a base of at most one never exceed one.
pub proof fn lemma_fx_pow_le_one(b: int, n: nat)
    requires
        0 <= b <= SCALE,
    ensures
        fx_pow(b, n) <= SCALE,
    decreases n,
{
    if n > 0 {
        lemma_fx_pow_le_one(b, (n - 1) as nat);
        lemma_fx_pow_nonneg(b, (n - 1) as nat);
        lemma_fx_mul_le(fx_pow(b, (n - 1) as nat), b);
    }
}

/// Powers of a base of at least one never decrease as the exponent grows.
pub proof fn lemma_fx_pow_monotone(b: int, i: nat, n: nat)
    requires
        SCALE <= b,
        i <= n,
    ensures
        fx_pow(b, i) <= fx_pow(b, n),
    decreases n,
{
    if i < n {
        lemma_fx_pow_monotone(b, i, (n - 1) as nat);
        lemma_fx_pow_nonneg(b, (n - 1) as nat);
        lemma_fx_mul_ge(fx_pow(b, (n - 1) as nat), b);
    }
}

/// Every intermediate power is bounded by one or by the final power.
proof fn lemma_fx_pow_intermediate(b: int, i: nat, n: nat)
    requires
        0 <= b,
        i <= n,
    ensures
        0 <= fx_pow(b, i),
        fx_pow(b, i) <= SCALE || fx_pow(b, i) <= fx_pow(b, n),
{
    lemma_fx_pow_nonneg(b, i);
    if b <= SCALE {
        lemma_fx_pow_le_one(b, i);
    } else {
        lemma_fx_pow_monotone(b, i, n);
    }
}

/// Law: multiplying by a nonzero quantity and then by its truncated
/// reciprocal never carries a value past its starting magnitude — the
/// round trip can only shrink, by the truncation losses.
pub proof fn lemma_scale_unscale_shrinks(a: int, s: int)
    requires
        s != 0,
    ensures
        ({
            let aa = if a >= 0 {
                a
            } else {
                -a
            };
            -aa <= fx_mul(fx_mul(a, s), fx_recip(s)) <= aa
        }),
{
    let sc = SCALE as int;
    let aa = if a >= 0 {
        a
    } else {
        -a
    };
    let tt = if s >= 0 {
        s
    } else {
        -s
    };
    // First product, in sign-magnitude form.
    lemma_fx_mul_abs(a, s);
    let x1 = fx_mul(a, s);
    let nu1 = (aa * tt) / sc;
    assert(0 <= aa * tt) by (nonlinear_arith)
        requires
            0 <= aa,
            0 <= tt,
    ;
    vstd::arithmetic::div_mod::lemma_fundamental_div_mod(aa * tt, sc);
    vstd::arithmetic::div_mod::lemma_mod_division_less_than_divisor(aa * tt, sc);
    assert(sc * nu1 <= aa * tt);
    // The truncated reciprocal, in sign-magnitude form.
    let r = fx_recip(s);
    let rho = (sc * sc) / tt;
    assert(r == if s >= 0 {
        rho
    } else {
        -rho
    });
    vstd::arithmetic::div_mod::lemma_div_pos_is_pos(sc * sc, tt);
    vstd::arithmetic::div_mod::lemma_fundamental_div_mod(sc * sc, tt);
    vstd::arithmetic::div_mod::lemma_mod_division_less_than_divisor(sc * sc, tt);
    assert(tt * rho <= sc * sc);
    // Second product: magnitudes chain, and the whole chain cancels.
    lemma_fx_mul_abs(x1, r);
    let x2 = fx_mul(x1, r);
    let nu2 = (nu1 * rho) / sc;
    assert(x2 == nu2 || x2 == -nu2) by (nonlinear_arith)
        requires
            x1 == nu1 || x1 == -nu1,
            r == rho || r == -rho,
            0 <= nu1,
            0 <= rho,
            x2 == if (x1 >= 0) == (r >= 0) {
                ((if x1 >= 0 {
                    x1
                } else {
                    -x1
                }) * (if r >= 0 {
                    r
                } else {
                    -r
                })) / sc
            } else {
                -(((if x1 >= 0 {
                    x1
                } else {
                    -x1
                }) * (if r >= 0 {
                    r
                } else {
                    -r
                })) / sc)
            },
            nu2 == (nu1 * rho) / sc,
    ;
    assert(0 <= nu1 * rho) by (nonlinear_arith)
        requires
            0 <= nu1,
            0 <= rho,
    ;
    vstd::arithmetic::div_mod::lemma_fundamental_div_mod(nu1 * rho, sc);
    vstd::arithmetic::div_mod::lemma_mod_division_less_than_divisor(nu1 * rho, sc);
    vstd::arithmetic::div_mod::lemma_div_pos_is_pos(nu1 * rho, sc);
    assert(sc * nu2 <= nu1 * rho);
    assert(nu2 <= aa) by (nonlinear_arith)
        requires
            sc * nu1 <= aa * tt,
            tt * rho <= sc * sc,
            sc * nu2 <= nu1 * rho,
            0 <= nu1,
            0 <= rho,
            0 <= nu2,
            0 <= aa,
            0 < tt,
            0 < sc,
    ;
}

/// Raw value of the square root of a fixed-point quantity: scaling the
/// radicand once more by `SCALE` puts the integer root back on the raw grid.
pub open spec fn fx_sqrt(a: int) -> int
    recommends
        a >= 0,
{
    sqrt_floor((a * SCALE) as nat) as int
}

/// Floor of the square root of `n`, found by binary search.
fn isqrt(n: u128) -> (r: u64)
    requires
        n < 0x10_0000_0000_0000_0000_0000_0000,
    ensures
        r as nat == sqrt_floor(n as nat),
{
    let mut lo: u64 = 0;
    let mut hi: u64 = 0x4_0000_0000_0000;
    proof {
        assert((hi as nat) * (hi as nat) == 0x10_0000_0000_0000_0000_0000_0000nat)
            by (nonlinear_arith)
            requires
                hi == 0x4_0000_0000_0000u64,
        ;
    }
    while lo + 1 < hi
        invariant
            (lo as nat) * (lo as nat) <= n as nat,
            (n as nat) < (hi as nat) * (hi as nat),
            lo < hi,
            hi <= 0x4_0000_0000_0000u64,
        decreases hi - lo,
    {
        let mid: u64 = lo + (hi - lo) / 2;
        proof {
            assert((mid as nat) * (mid as nat) <= 0x10_0000_0000_0000_0000_0000_0000nat)
                by (nonlinear_arith)
                requires
                    mid <= 0x4_0000_0000_0000u64,
            ;
        }
        let sq: u128 = (mid as u128) * (mid as u128);
        if sq <= n {
            lo = mid;
        } else {
            hi = mid;
        }
    }
    proof {
        lemma_sqrt_floor_unique(n as nat, lo as nat);
    }
    lo
}

/// A real quantity held as `raw` millionths.
#[derive(Clone, Copy, PartialEq, Eq, Structural, Debug)]
pub struct Scalar {
    pub raw: i64,
}

impl View for Scalar {
    type V = int;

    open spec fn view(&self) -> int {
        self.raw as int
    }
}

impl Scalar {
    /// The zero quantity.
    pub fn zero() -> (r: Scalar)
        ensures
            r@ == 0,
    {
        Scalar { raw: 0 }
    }

    /// The quantity `v`, exactly.
    pub fn from_int(v: i64) -> (r: Scalar)
        requires
            fits_raw(v * SCALE),
        ensures
            r@ == v * SCALE,
    {
        Scalar { raw: v * SCALE }
    }

    /// The exact sum of the two quantities.
    pub fn add(&self, rhs: &Scalar) -> (r: Scalar)
        requires
            fits_raw(self@ + rhs@),
        ensures
            r@ == self@ + rhs@,
    {
        Scalar { raw: self.raw + rhs.raw }
    }

    /// The exact difference of the two quantities.
    pub fn sub(&self, rhs: &Scalar) -> (r: Scalar)
        requires
            fits_raw(self@ - rhs@),
        ensures
            r@ == self@ - rhs@,
    {
        Scalar { raw: self.raw - rhs.raw }
    }

    /// The exact negation of the quantity.
    pub fn neg(&self) -> (r: Scalar)
        requires
            fits_raw(-self@),
        ensures
            r@ == -self@,
    {
        Scalar { raw: -self.raw }
    }

    /// The product of the two quantities, truncated toward zero.
    pub fn mul(&self, rhs: &Scalar) -> (r: Scalar)
        requires
            fits_raw(fx_mul(self@, rhs@)),
        ensures
            r@ == fx_mul(self@, rhs@),
    {
        proof {
            assert((self.raw as int) * (rhs.raw as int) <= i128::MAX
                && i128::MIN <= (self.raw as int) * (rhs.raw as int)) by (nonlinear_arith)
                requires
                    i64::MIN <= self.raw <= i64::MAX,
                    i64::MIN <= rhs.raw <= i64::MAX;
        }
        let p: i128 = (self.raw as i128) * (rhs.raw as i128);
        let q: i128 = p / (SCALE as i128);
        Scalar { raw: q as i64 }
    }

    /// The square root of a nonnegative quantity, rounded down to the grid.
    pub fn sqrt(&self) -> (r: Scalar)
        requires
            self@ >= 0,
        ensures
            r@ == fx_sqrt(self@),
    {
        proof {
            assert((self.raw as int) * (SCALE as int) < 0x10_0000_0000_0000_0000_0000_0000)
                by (nonlinear_arith)
                requires
                    0 <= self.raw <= i64::MAX,
            ;
        }
        let n: u128 = (self.raw as u128) * (SCALE as u128);
        let root: u64 = isqrt(n);
        proof {
            lemma_sqrt_floor_bounds(n as nat);
            assert(root <= 0x4_0000_0000_0000) by (nonlinear_arith)
                requires
                    (root as nat) * (root as nat) <= n as nat,
                    (n as nat) < 0x10_0000_0000_0000_0000_0000_0000nat,
            ;
        }
        Scalar { raw: root as i64 }
    }

    /// The quantity raised to a whole power `n`; a negative power raises
    /// the truncated reciprocal to `-n` instead.
    pub fn powi(&self, n: i64) -> (r: Scalar)
        requires
            self@ > 0,
            fits_raw(fx_powi(self@, n as int)),
        ensures
            r@ == fx_powi(self@, n as int),
    {
        let base: Scalar = if n >= 0 {
            *self
        } else {
            self.recip()
        };
        proof {
            if n < 0 {
                vstd::arithmetic::div_mod::lemma_div_pos_is_pos((SCALE * SCALE) as int, self@);
            }
        }
        let m: u64 = if n >= 0 {
            n as u64
        } else {
            (-(n as i128)) as u64
        };
        assert(fx_powi(self@, n as int) == fx_pow(base@, m as nat));
        let mut acc: i64 = SCALE;
        let mut i: u64 = 0;
        while i < m
            invariant
                0 <= base@,
                acc as int == fx_pow(base@, i as nat),
                i <= m,
                fits_raw(fx_pow(base@, m as nat)),
            decreases m - i,
        {
            proof {
                assert((acc as int) * (base.raw as int) <= i128::MAX
                    && i128::MIN <= (acc as int) * (base.raw as int)) by (nonlinear_arith)
                    requires
                        i64::MIN <= acc <= i64::MAX,
                        i64::MIN <= base.raw <= i64::MAX,
                ;
            }
            let p: i128 = (acc as i128) * (base.raw as i128);
            let q: i128 = p / (SCALE as i128);
            proof {
                assert(q == fx_pow(base@, (i + 1) as nat));
                lemma_fx_pow_intermediate(base@, (i + 1) as nat, m as nat);
            }
            acc = q as i64;
            i = i + 1;
        }
        Scalar { raw: acc }
    }

    /// The reciprocal of the quantity, truncated toward zero.
    pub fn recip(&self) -> (r: Scalar)
        requires
            self@ != 0,
        ensures
            r@ == fx_recip(self@),
    {
        let d: i128 = self.raw as i128;
        let m: i128 = if d < 0 { -d } else { d };
        let one_squared: i128 = 1_000_000_000_000;
        assert(one_squared == (SCALE * SCALE) as int);
        let q: i128 = one_squared / m;
        proof {
            vstd::arithmetic::div_mod::lemma_div_pos_is_pos(one_squared as int, m as int);
            vstd::arithmetic::div_mod::lemma_div_nonincreasing(one_squared as int, m as int);
        }
        Scalar { raw: if d < 0 { -(q as i64) } else { q as i64 } }
    }
}

} // verus!
