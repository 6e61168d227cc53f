//! A minimal linear-dynamics simulation core: a three-component vector type
//! and a point-mass particle integrator, both over an exact fixed-point
//! scalar so that every operation has a precise arithmetic contract.

pub mod particle;
pub mod scalar;
pub mod vector;

pub use particle::Particle;
pub use scalar::Scalar;
pub use vector::Vector;
pub use vector::Vector3;
