use pointmass::scalar::SCALE;
use pointmass::{Particle, Scalar, Vector3};

fn s(raw: i64) -> Scalar {
    Scalar { raw }
}

fn vec3(x: i64, y: i64, z: i64) -> Vector3 {
    Vector3::new(s(x), s(y), s(z))
}

#[test]
pub fn integrate() {
    let mut particle = Particle {
        inverse_mass: Scalar::from_int(2).recip(), // 2.0 kg
        velocity: vec3(0, 0, 35 * SCALE),          // 35 m/s
        acceleration: vec3(0, -SCALE, 0),
        damping: s(990_000), // 0.99
        force_accumulator: Vector3::zero(),
        position: Vector3::zero(),
    };

    particle.integrate(Scalar::from_int(4));
    assert_eq!(
        particle,
        Particle {
            position: vec3(0, 0, 140 * SCALE),
            // 0.99^4 truncates to 0.960596 on the grid, so the damped
            // velocity is exactly (0, -3.842384, 33.620860).
            velocity: vec3(0, -3_842_384, 33_620_860),
            acceleration: vec3(0, -SCALE, 0),
            damping: s(990_000),
            inverse_mass: s(500_000),
            force_accumulator: Vector3::zero(),
        }
    );
}

#[test]
pub fn mass() {
    let particle = Particle {
        inverse_mass: Scalar::from_int(2).recip(), // 2.0 kg
        ..Default::default()
    };
    assert_eq!(particle.mass(), Scalar::from_int(2));
}

#[test]
pub fn infinite_mass_sentinel() {
    let frozen = Particle {
        inverse_mass: Scalar::zero(),
        ..Default::default()
    };
    assert!(frozen.has_infinite_mass());
    let movable = Particle {
        inverse_mass: s(500_000),
        ..Default::default()
    };
    assert!(!movable.has_infinite_mass());
}

#[test]
pub fn forces_accumulate_until_consumed() {
    let mut particle = Particle {
        damping: s(990_000),
        inverse_mass: s(500_000),
        ..Default::default()
    };
    particle.add_force(&vec3(SCALE, 0, 0));
    particle.add_force(&vec3(SCALE, 2 * SCALE, 0));
    assert_eq!(particle.force_accumulator, vec3(2 * SCALE, 2 * SCALE, 0));
    particle.integrate(Scalar::from_int(1));
    assert_eq!(particle.force_accumulator, Vector3::zero());
}
