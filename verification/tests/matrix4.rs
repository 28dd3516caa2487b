use ray_tracer::GeomError;
use ray_tracer::math::matrix4::Matrix4;
use ray_tracer::math::vec4::Vec4;

#[test]
fn test_matrix_inverse() {
    // Identity: the adjugate is the identity and the determinant is one.
    let identity = Matrix4::new_identity();
    let (adj, det) = identity.inv().unwrap();
    assert_eq!(adj.data(), identity.data());
    assert_eq!(det, 1);

    // Translation: determinant one, adjugate is the opposite translation.
    let translation = Matrix4::new_translate([2, -3, 4]);
    let expected = Matrix4::new_translate([-2, 3, -4]);
    let (adj, det) = translation.inv().unwrap();
    assert_eq!(adj.data(), expected.data());
    assert_eq!(det, 1);

    // A singular matrix is rejected.
    let singular = Matrix4::new([1, 2, 3, 4, 2, 4, 6, 8, 0, 0, 0, 0, 0, 0, 0, 0]);
    assert_eq!(singular.inv().unwrap_err(), GeomError::SingularMatrix);

    // Inverse of inverse: for a unit-determinant matrix, taking the
    // adjugate twice returns the original matrix.
    let transform = Matrix4::new([1, 2, 3, 4, 0, 1, 5, 6, 0, 0, 1, 7, 0, 0, 0, 1]);
    let (adj, det) = transform.inv().unwrap();
    assert_eq!(det, 1);
    let (adj2, det2) = adj.inv().unwrap();
    assert_eq!(det2, 1);
    for i in 0..16 {
        assert_eq!(adj2.data()[i], transform.data()[i]);
    }
}

#[test]
fn test_addition() {
    let a = Matrix4::new([1; 16]);
    let b = Matrix4::new([2; 16]);
    let c = a.add(&b);

    for &val in c.data() {
        assert_eq!(val, 3);
    }
}

#[test]
fn test_subtraction() {
    let a = Matrix4::new([5; 16]);
    let b = Matrix4::new([2; 16]);
    let c = a.sub(&b);

    for &val in c.data() {
        assert_eq!(val, 3);
    }
}

#[test]
fn test_matrix_multiplication() {
    let identity = Matrix4::new_identity();
    let a = Matrix4::new([1, 2, 3, 4, 5, 6, 7, 8, 9, 10, 11, 12, 13, 14, 15, 16]);

    let result = identity.mul(&a);
    assert_eq!(result.data(), a.data());
}

#[test]
fn test_scalar_multiplication() {
    let a = Matrix4::new([1, 2, 3, 4, 5, 6, 7, 8, 9, 10, 11, 12, 13, 14, 15, 16]);
    let result = a.mul_scalar(2);
    let expected = Matrix4::new([2, 4, 6, 8, 10, 12, 14, 16, 18, 20, 22, 24, 26, 28, 30, 32]);
    assert_eq!(result.data(), expected.data());
}

#[test]
fn test_assignment_operators() {
    let mut a = Matrix4::new([1; 16]);
    let b = Matrix4::new([2; 16]);

    a = a.add(&b);
    for &val in a.data() {
        assert_eq!(val, 3);
    }

    a = a.sub(&b);
    for &val in a.data() {
        assert_eq!(val, 1);
    }

    a = a.mul_scalar(3);
    for &val in a.data() {
        assert_eq!(val, 3);
    }
}

#[test]
fn test_matrix_point_multiplication() {
    // Translation matrix: translate x by 2, y by 3, z by 4.
    let translation = Matrix4::new([
        1, 0, 0, 2,
        0, 1, 0, 3,
        0, 0, 1, 4,
        0, 0, 0, 1,
    ]);
    let p = Vec4::new(1, 1, 1, 1);
    let result = translation.mul_vec4(&p);
    assert_eq!(result, Vec4::new(3, 4, 5, 1));

    // Scaling matrix: scale x by 2, y by 3, z by 4.
    let scaling = Matrix4::new([
        2, 0, 0, 0,
        0, 3, 0, 0,
        0, 0, 4, 0,
        0, 0, 0, 1,
    ]);
    let result = scaling.mul_vec4(&p);
    assert_eq!(result, Vec4::new(2, 3, 4, 1));

    let result_ref = translation.mul_vec4(&p);
    assert_eq!(result_ref, Vec4::new(3, 4, 5, 1));
}
