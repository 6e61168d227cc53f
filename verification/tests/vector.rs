use pointmass::scalar::SCALE;
use pointmass::{Scalar, Vector3};

fn s(raw: i64) -> Scalar {
    Scalar { raw }
}

fn whole(v: i64) -> Scalar {
    Scalar::from_int(v)
}

fn vec3(x: i64, y: i64, z: i64) -> Vector3 {
    Vector3::new(s(x), s(y), s(z))
}

#[test]
pub fn dimensions() {
    let (x, y, z) = (whole(1), whole(2), whole(3));
    let vector = Vector3::new(x, y, z);
    assert_eq!(vector.x(), x);
    assert_eq!(vector.y(), y);
    assert_eq!(vector.z(), z);
}

#[test]
pub fn inverse() {
    let (x, y, z) = (whole(1), whole(2), whole(3));
    assert_eq!(
        Vector3::new(x, y, z).inverse(),
        vec3(-SCALE, -2 * SCALE, -3 * SCALE)
    );
}

#[test]
pub fn magnitude() {
    let (x, y, z) = (whole(1), whole(2), whole(3));
    let vector = Vector3::new(x, y, z);
    // 1*1 + 2*2 + 3*3 == 14, exactly on the grid.
    let magnitude_squared = whole(14);
    assert_eq!(vector.magnitude_squared(), magnitude_squared);
    assert_eq!(vector.magnitude(), magnitude_squared.sqrt());
    // floor(sqrt(14) * SCALE) == 3_741_657
    assert_eq!(vector.magnitude(), s(3_741_657));
}

#[test]
pub fn normalize() {
    let (x, y, z) = (whole(1), whole(2), whole(3));
    let vector = Vector3::new(x, y, z);
    // The magnitude truncates to 3.741657; each component is divided by it
    // on the grid: x * recip(m) truncated toward zero.
    let m = vector.magnitude();
    let expected = vector.mul_scalar(m.recip());
    assert_eq!(vector.normalize(), expected);
    assert_eq!(vector.normalize(), vec3(267_261, 534_522, 801_783));
}

#[test]
pub fn add() {
    assert_eq!(
        vec3(SCALE, 2 * SCALE, 3 * SCALE).add(&vec3(SCALE, 2 * SCALE, 3 * SCALE)),
        vec3(2 * SCALE, 4 * SCALE, 6 * SCALE)
    );
}

#[test]
pub fn add_assign() {
    let mut vector = vec3(SCALE, 2 * SCALE, 3 * SCALE);
    vector.add_assign(&vec3(SCALE, 2 * SCALE, 3 * SCALE));
    assert_eq!(vector, vec3(2 * SCALE, 4 * SCALE, 6 * SCALE));
}

#[test]
pub fn sub() {
    assert_eq!(
        vec3(2 * SCALE, 4 * SCALE, 6 * SCALE).sub(&vec3(SCALE, 2 * SCALE, 3 * SCALE)),
        vec3(SCALE, 2 * SCALE, 3 * SCALE)
    );
}

#[test]
pub fn multiply_scalar() {
    assert_eq!(
        vec3(SCALE, 2 * SCALE, 3 * SCALE).mul_scalar(whole(2)),
        vec3(2 * SCALE, 4 * SCALE, 6 * SCALE)
    );
}

#[test]
pub fn index() {
    assert_eq!(vec3(SCALE, 2 * SCALE, 3 * SCALE).get(1), whole(2));
}

#[test]
pub fn index_mut() {
    let mut vector = vec3(SCALE, 2 * SCALE, 3 * SCALE);
    vector.set(1, Scalar::zero());
    assert_eq!(vector.get(1), Scalar::zero());
}

#[test]
pub fn dot_product() {
    let dot_product = vec3(SCALE, 2 * SCALE, 3 * SCALE).dot(&vec3(3 * SCALE, 2 * SCALE, SCALE));
    assert_eq!(dot_product, whole(10));
}

#[test]
pub fn cross_product() {
    let cross_product =
        vec3(SCALE, 2 * SCALE, 3 * SCALE).cross(&vec3(3 * SCALE, 3 * SCALE, 3 * SCALE));
    assert_eq!(cross_product, vec3(-3 * SCALE, 6 * SCALE, -3 * SCALE));
}

#[test]
pub fn scalar_product() {
    let scalar_product = vec3(SCALE, 2 * SCALE, -3 * SCALE).mul_scalar(whole(3));
    assert_eq!(scalar_product, vec3(3 * SCALE, 6 * SCALE, -9 * SCALE));
}

#[test]
pub fn mul_assign_scalar() {
    let mut vector = vec3(SCALE, 2 * SCALE, -3 * SCALE);
    vector.mul_assign_scalar(whole(3));
    assert_eq!(vector, vec3(3 * SCALE, 6 * SCALE, -9 * SCALE));
}

#[test]
pub fn mul_assign_vector() {
    let mut vector = vec3(SCALE, 2 * SCALE, -3 * SCALE);
    vector.mul_assign_vector(&vec3(3 * SCALE, 3 * SCALE, 3 * SCALE));
    assert_eq!(vector, vec3(3 * SCALE, 6 * SCALE, -9 * SCALE));
}

#[test]
pub fn axes_are_unit_vectors() {
    assert_eq!(Vector3::x_axis(), vec3(SCALE, 0, 0));
    assert_eq!(Vector3::y_axis(), vec3(0, SCALE, 0));
    assert_eq!(Vector3::z_axis(), vec3(0, 0, SCALE));
    assert_eq!(Vector3::x_axis().magnitude(), whole(1));
}

#[test]
pub fn zero_vector_is_default() {
    assert_eq!(Vector3::zero(), Vector3::default());
    assert_eq!(Vector3::zero(), vec3(0, 0, 0));
}
