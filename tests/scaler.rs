use propstore::scaler::grid::IntVector3;
use propstore::scaler::vector::Vec3;
use std::ops::{Add, Div, Mul, Sub};

#[test]
fn grid_test_add() {
    let mut v1 = IntVector3([1, 2, 3]);
    let v2 = IntVector3([4, 5, 6]);

    let v1b = &mut v1;
    *v1b = v1b.add(v2);

    assert_eq!(v1, IntVector3([5, 7, 9]));
}

#[test]
fn test_add_int() {
    let mut v1 = Vec3::<i64>([1, 2, 3]);
    let v2 = Vec3::<i64>([4, 5, 6]);

    let v1b = &mut v1;
    *v1b = v1b.add(v2);

    assert_eq!(v1, Vec3([5, 7, 9]));
}

#[test]
fn int_vector_lengths() {
    let v = IntVector3([3, 4, 0]);
    assert_eq!(v.get_length_floor(), 5);
    assert_eq!(v.get_length_ceil(), 5);
    let w = IntVector3([1, 1, 1]);
    assert_eq!(w.get_length_floor(), 1);
    assert_eq!(w.get_length_ceil(), 2);
    assert_eq!(IntVector3::zero().get_length_ceil(), 0);
    let big = IntVector3([i64::MIN, i64::MAX, i64::MIN]);
    assert_eq!(big.get_length_floor(), i64::MAX);
    assert_eq!(big.get_length_ceil(), i64::MAX);
    let neg = IntVector3([-2, -3, -6]);
    assert_eq!(neg.get_length_floor(), 7);
    assert_eq!((neg.x(), neg.y(), neg.z()), (-2, -3, -6));
}

#[test]
fn vec3_parts() {
    let v = Vec3::<i32>([7, -8, 9]);
    assert_eq!((v.x(), v.y(), v.z()), (7, -8, 9));
    assert_eq!(Vec3::<usize>::zero(), Vec3([0, 0, 0]));
    assert_eq!(Vec3([1usize, 2, 3]).add(Vec3([10, 20, 30])), Vec3([11, 22, 33]));
}

#[test]
fn int_vector_sub_mul_div() {
    // the difference is taken the other way round
    assert_eq!(IntVector3([1, 2, 3]).sub(IntVector3([10, 20, 30])), IntVector3([9, 18, 27]));
    assert_eq!(IntVector3([1, -2, 3]).mul(3), IntVector3([3, -6, 9]));
    assert_eq!(IntVector3([7, -7, 9]).div(2), IntVector3([3, -3, 4]));
}

#[test]
fn vec3_sub_mul_div() {
    assert_eq!(Vec3::<i64>([1, 2, 3]).sub(Vec3([4, 4, 4])), Vec3([3, 2, 1]));
    assert_eq!(Vec3::<i32>([1, 2, 3]).mul(-2), Vec3([-2, -4, -6]));
    assert_eq!(Vec3::<i32>([-7, 7, 1]).div(2), Vec3([-3, 3, 0]));
    assert_eq!(Vec3::<usize>([9, 8, 7]).div(3), Vec3([3, 2, 2]));
}
