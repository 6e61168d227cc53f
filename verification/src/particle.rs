//! A point mass integrated forward in time by semi-implicit Euler steps.
//!
//! The particle owns its kinematic state; `integrate` advances it by one
//! whole-unit time step: the position moves along the old velocity, the
//! velocity picks up the constant acceleration and then decays by the
//! damping factor raised to the step length, and the force accumulator is
//! cleared. An infinite-mass particle (inverse mass zero) is left entirely
//! untouched by a positive-duration step, accumulator included.

use crate::scalar::{
    div_trunc, fits_raw, fx_powi, fx_recip, lemma_fx_mul_one, lemma_fx_mul_zero, Scalar, SCALE,
};
use crate::vector::{
    add_in_range, scale_in_range, spec_add, spec_scale, spec_zero, Vector, Vector3,
};
use vstd::prelude::*;

verus! {

/// A point mass with linear kinematic state.
#[derive(Clone, Copy, PartialEq, Eq, Structural, Debug)]
pub struct Particle {
    /// The linear position of the particle in world space.
    pub position: Vector3,
    /// The linear velocity of the particle in world space.
    pub velocity: Vector3,
    /// Constant acceleration applied every step, gravity being the usual use.
    pub acceleration: Vector3,
    /// Velocity kept per whole time unit, in (0, 1]: damping removes the
    /// energy that the discrete integration scheme would otherwise add.
    pub damping: Scalar,
    /// Reciprocal of the mass; zero encodes an immovable, infinite mass.
    pub inverse_mass: Scalar,
    /// Force gathered for the next step only; consumed and cleared by it.
    pub force_accumulator: Vector3,
}

/// Number of whole time units in a duration on the raw grid.
pub open spec fn spec_units(duration: int) -> int
    recommends
        duration % (SCALE as int) == 0,
{
    duration / (SCALE as int)
}

/// Raw factor by which one step of the given duration damps the velocity:
/// the per-unit damping raised to the number of whole units.
pub open spec fn spec_decay(damping: int, duration: int) -> int
    recommends
        damping != 0,
{
    fx_powi(damping, spec_units(duration))
}

/// The state one integration step of `duration` leaves behind: unchanged
/// for a frozen particle, otherwise moved, accelerated, damped, and with
/// the force accumulator cleared.
pub open spec fn spec_integrate(p: Particle, duration: int) -> Particle
    recommends
        p.wf(),
        duration % (SCALE as int) == 0,
{
    if p.inverse_mass@ <= 0 && duration > 0 {
        p
    } else {
        let sped = spec_add(p.velocity, spec_scale(p.acceleration, duration));
        Particle {
            position: spec_add(p.position, spec_scale(p.velocity, duration)),
            velocity: spec_scale(sped, spec_decay(p.damping@, duration)),
            force_accumulator: spec_zero(),
            ..p
        }
    }
}

/// Whether every quantity of one integration step stays representable.
pub open spec fn integrate_in_range(p: Particle, duration: int) -> bool {
    &&& scale_in_range(p.velocity, duration)
    &&& add_in_range(p.position, spec_scale(p.velocity, duration))
    &&& scale_in_range(p.acceleration, duration)
    &&& add_in_range(p.velocity, spec_scale(p.acceleration, duration))
    &&& fits_raw(spec_decay(p.damping@, duration))
    &&& scale_in_range(
        spec_add(p.velocity, spec_scale(p.acceleration, duration)),
        spec_decay(p.damping@, duration),
    )
}

impl Particle {
    /// A particle is well formed when its damping lies in (0, 1] and its
    /// inverse mass is not negative; inverse mass zero is the infinite-mass
    /// sentinel.
    pub open spec fn wf(self) -> bool {
        0 < self.damping@ <= SCALE && 0 <= self.inverse_mass@
    }

    /// The mass: the reciprocal of the stored inverse mass. Calling this
    /// on an infinite-mass particle is a caller bug.
    pub fn mass(&self) -> (r: Scalar)
        requires
            self.inverse_mass@ != 0,
        ensures
            r@ == fx_recip(self.inverse_mass@),
    {
        self.inverse_mass.recip()
    }

    /// Whether the particle is immovable: inverse mass exactly zero, with
    /// no tolerance — the value is a sentinel, not a measurement.
    pub fn has_infinite_mass(&self) -> (r: bool)
        ensures
            r == (self.inverse_mass@ == 0),
    {
        self.inverse_mass.raw == 0
    }

    /// Adds a force into the accumulator for the next integration step;
    /// successive calls accumulate until a step consumes them.
    pub fn add_force(&mut self, force: &Vector3)
        requires
            add_in_range(old(self).force_accumulator, *force),
        ensures
            *final(self) == (Particle {
                force_accumulator: spec_add(old(self).force_accumulator, *force),
                ..*old(self)
            }),
    {
        self.force_accumulator.add_assign(force);
    }

    /// Advances the particle by one step of `duration` whole time units
    /// (duration zero and negative whole durations included): the position
    /// moves along the old velocity, the velocity gains the constant
    /// acceleration and is damped, and the force accumulator is cleared.
    /// A frozen particle under a positive duration is left untouched —
    /// the accumulator is deliberately not cleared on that path.
    pub fn integrate(&mut self, duration: Scalar)
        requires
            old(self).wf(),
            duration@ % (SCALE as int) == 0,
            integrate_in_range(*old(self), duration@),
        ensures
            *final(self) == spec_integrate(*old(self), duration@),
            old(self).inverse_mass@ == 0 && duration@ > 0 ==> *final(self) == *old(self),
    {
        if self.inverse_mass.raw <= 0 && duration.raw > 0 {
            return ;
        }
        let moved = self.velocity.mul_scalar(duration);
        self.position.add_assign(&moved);
        let gained = self.acceleration.mul_scalar(duration);
        self.velocity.add_assign(&gained);
        let units: i64 = duration.raw / SCALE;
        proof {
            lemma_units_exact(duration@);
        }
        let decay = self.damping.powi(units);
        self.velocity.mul_assign_scalar(decay);
        self.force_accumulator = Vector::zero();
    }
}

/// On a whole-unit duration the hardware division by `SCALE` is exact, so
/// truncation and mathematical division agree.
proof fn lemma_units_exact(duration: int)
    requires
        fits_raw(duration),
        duration % (SCALE as int) == 0,
    ensures
        div_trunc(duration, SCALE as int) == spec_units(duration),
{
    let scale = SCALE as int;
    if duration < 0 {
        let k = duration / scale;
        vstd::arithmetic::div_mod::lemma_fundamental_div_mod(duration, scale);
        assert(duration == scale * k);
        assert((-duration) == (-k) * scale) by (nonlinear_arith)
            requires
                duration == scale * k,
        ;
        vstd::arithmetic::div_mod::lemma_div_by_multiple(-k, scale);
    }
}

/// Law: an infinite-mass particle integrated over any positive duration is
/// left byte-for-byte unchanged — force accumulator included.
pub proof fn lemma_infinite_mass_frozen(p: Particle, duration: int)
    requires
        p.inverse_mass@ == 0,
        duration > 0,
    ensures
        spec_integrate(p, duration) == p,
{
}

/// Law: a zero-duration step moves nothing and damps nothing — position and
/// velocity are exactly unchanged — yet still clears the force accumulator.
pub proof fn lemma_zero_duration_clears_only_forces(p: Particle)
    requires
        p.wf(),
    ensures
        spec_integrate(p, 0).position == p.position,
        spec_integrate(p, 0).velocity == p.velocity,
        spec_integrate(p, 0).acceleration == p.acceleration,
        spec_integrate(p, 0).damping == p.damping,
        spec_integrate(p, 0).inverse_mass == p.inverse_mass,
        spec_integrate(p, 0).force_accumulator == spec_zero(),
{
    lemma_fx_mul_zero(p.velocity.x@);
    lemma_fx_mul_zero(p.velocity.y@);
    lemma_fx_mul_zero(p.velocity.z@);
    lemma_fx_mul_zero(p.acceleration.x@);
    lemma_fx_mul_zero(p.acceleration.y@);
    lemma_fx_mul_zero(p.acceleration.z@);
    vstd::arithmetic::div_mod::lemma_div_of0(SCALE as int);
    assert(spec_decay(p.damping@, 0) == SCALE as int);
    lemma_fx_mul_one(p.velocity.x@);
    lemma_fx_mul_one(p.velocity.y@);
    lemma_fx_mul_one(p.velocity.z@);
}

impl Default for Particle {
    /// A particle at rest at the origin with every field zero, the
    /// infinite-mass sentinel included.
    fn default() -> (r: Particle)
        ensures
            r == (Particle {
                position: spec_zero(),
                velocity: spec_zero(),
                acceleration: spec_zero(),
                damping: Scalar { raw: 0 },
                inverse_mass: Scalar { raw: 0 },
                force_accumulator: spec_zero(),
            }),
    {
        Particle {
            position: Vector::zero(),
            velocity: Vector::zero(),
            acceleration: Vector::zero(),
            damping: Scalar::zero(),
            inverse_mass: Scalar::zero(),
            force_accumulator: Vector::zero(),
        }
    }
}

} // verus!

