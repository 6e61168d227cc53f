use pointmass::scalar::SCALE;
use pointmass::{Particle, Scalar, Vector3};

fn s(raw: i64) -> Scalar {
    Scalar { raw }
}

fn vec3(x: i64, y: i64, z: i64) -> Vector3 {
    Vector3::new(s(x), s(y), s(z))
}

fn raw_close(a: Scalar, b: Scalar, tolerance: i64) -> bool {
    (a.raw - b.raw).abs() <= tolerance
}

#[test]
pub fn add_then_sub_restores() {
    let a = vec3(1_500_000, -2_250_000, 3_125_000);
    let b = vec3(-7_000_001, 42, 999_999);
    assert_eq!(a.add(&b).sub(&b), a);
}

#[test]
pub fn add_commutes() {
    let a = vec3(1_500_000, -2_250_000, 3_125_000);
    let b = vec3(-7_000_001, 42, 999_999);
    assert_eq!(a.add(&b), b.add(&a));
}

#[test]
pub fn scale_then_unscale_is_close() {
    let a = vec3(1_500_000, -2_250_000, 3_125_000);
    let factor = Scalar::from_int(3);
    let back = a.mul_scalar(factor).mul_scalar(factor.recip());
    // Truncation loses at most a few grid units per component.
    assert!(raw_close(back.x(), a.x(), 10));
    assert!(raw_close(back.y(), a.y(), 10));
    assert!(raw_close(back.z(), a.z(), 10));
}

#[test]
pub fn normalize_zero_vector_is_zero() {
    assert_eq!(Vector3::zero().normalize(), Vector3::zero());
}

#[test]
pub fn normalize_gives_unit_magnitude() {
    let v = vec3(SCALE, 2 * SCALE, 3 * SCALE);
    // The dominant error is the truncated reciprocal of the magnitude: the
    // result can sit a few raw units on either side of exactly one.
    assert!(raw_close(v.normalize().magnitude(), Scalar::from_int(1), 20));
    let w = vec3(-12_345_678, 87_654, 3_333_333);
    assert!(raw_close(w.normalize().magnitude(), Scalar::from_int(1), 20));
}

#[test]
pub fn cross_with_self_is_zero() {
    let v = vec3(1_500_000, -2_250_000, 3_125_000);
    assert_eq!(v.cross(&v), Vector3::zero());
}

#[test]
pub fn dot_with_self_is_magnitude_squared() {
    let v = vec3(1_500_000, -2_250_000, 3_125_000);
    assert_eq!(v.dot(&v), v.magnitude_squared());
}

#[test]
pub fn infinite_mass_particle_is_frozen() {
    let mut particle = Particle {
        position: vec3(SCALE, 2 * SCALE, 3 * SCALE),
        velocity: vec3(0, 0, 5 * SCALE),
        acceleration: vec3(0, -10 * SCALE, 0),
        damping: s(990_000),
        inverse_mass: Scalar::zero(),
        force_accumulator: Vector3::zero(),
    };
    particle.add_force(&vec3(SCALE, 2 * SCALE, 0));
    let before = particle;
    particle.integrate(Scalar::from_int(1));
    // Untouched, the uncleared force accumulator included.
    assert_eq!(particle, before);
    assert_eq!(particle.force_accumulator, vec3(SCALE, 2 * SCALE, 0));
}

#[test]
pub fn zero_duration_clears_only_forces() {
    let mut particle = Particle {
        position: vec3(SCALE, 2 * SCALE, 3 * SCALE),
        velocity: vec3(0, 0, 5 * SCALE),
        acceleration: vec3(0, -10 * SCALE, 0),
        damping: s(990_000),
        inverse_mass: s(500_000),
        force_accumulator: Vector3::zero(),
    };
    particle.add_force(&vec3(SCALE, 2 * SCALE, 0));
    let before = particle;
    particle.integrate(Scalar::zero());
    assert_eq!(particle.position, before.position);
    assert_eq!(particle.velocity, before.velocity);
    assert_eq!(particle.acceleration, before.acceleration);
    assert_eq!(particle.force_accumulator, Vector3::zero());
}

#[test]
pub fn mass_is_reciprocal_of_inverse_mass() {
    let particle = Particle {
        inverse_mass: s(500_000), // 0.5
        ..Default::default()
    };
    assert_eq!(particle.mass(), Scalar::from_int(2));
    let quarter = Particle {
        inverse_mass: s(250_000), // 0.25
        ..Default::default()
    };
    assert_eq!(quarter.mass(), Scalar::from_int(4));
}

#[test]
pub fn split_steps_agree_only_approximately() {
    let start = Particle {
        inverse_mass: s(500_000),
        velocity: vec3(0, 0, 35 * SCALE),
        acceleration: vec3(0, -SCALE, 0),
        damping: s(990_000),
        force_accumulator: Vector3::zero(),
        position: Vector3::zero(),
    };
    let mut single = start;
    single.integrate(Scalar::from_int(4));
    let mut split = start;
    split.integrate(Scalar::from_int(2));
    split.integrate(Scalar::from_int(2));
    // Semi-implicit Euler is not path independent: the two ways differ...
    assert_ne!(single.position, split.position);
    assert_ne!(single.velocity, split.velocity);
    // ...but only by the discretization error, bounded here.
    assert!(raw_close(single.position.z(), split.position.z(), 2 * SCALE));
    assert!(raw_close(single.position.y(), split.position.y(), 4 * SCALE));
    assert!(raw_close(single.velocity.z(), split.velocity.z(), SCALE / 100));
    assert!(raw_close(single.velocity.y(), split.velocity.y(), SCALE / 10));
}

#[test]
pub fn negative_duration_steps_backward() {
    let mut particle = Particle {
        inverse_mass: s(500_000),
        velocity: vec3(0, 0, 2 * SCALE),
        acceleration: Vector3::zero(),
        damping: Scalar::from_int(1),
        force_accumulator: Vector3::zero(),
        position: vec3(0, 0, 10 * SCALE),
    };
    particle.integrate(Scalar::from_int(-3));
    assert_eq!(particle.position, vec3(0, 0, 4 * SCALE));
    assert_eq!(particle.velocity, vec3(0, 0, 2 * SCALE));
}

#[test]
pub fn scalar_arithmetic_exact_values() {
    assert_eq!(Scalar::from_int(2).sqrt(), s(1_414_213));
    assert_eq!(s(500_000).recip(), Scalar::from_int(2));
    assert_eq!(s(990_000).powi(4), s(960_596));
    assert_eq!(Scalar::from_int(2).powi(-1), s(500_000));
    assert_eq!(s(2_500_000).mul(&s(-2_000_000)), s(-5_000_000));
    assert_eq!(s(7).mul(&s(7)), Scalar::zero());
    assert_eq!(s(-3_000_000).neg(), Scalar::from_int(3));
}

#[test]
pub fn tiny_vectors_normalize_to_themselves() {
    // The squared magnitude of a sub-grid vector truncates to zero, so its
    // magnitude is zero and normalization deliberately returns it unchanged.
    let tiny = vec3(1, 0, 0);
    assert_eq!(tiny.normalize(), tiny);
}
