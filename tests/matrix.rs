use complex_calculator::{Complex as C, Matrix, Vector as V};

#[test]
fn matrix_test_add() {
    let v1 = V([1i64, 2, 3]);
    let v2 = V([4i64, 5, 6]);
    let res = v1 + v2;
    assert_eq!(res.0, [5, 7, 9]);
}

#[test]
fn matrix_test_mul() {
    let v = V([1i64, 2, 3]);
    let res = v * 2;
    assert_eq!(res.0, [2, 4, 6]);
}

#[test]
fn test_neg() {
    let v = V([C::new(1i64, 0), C::new(2, -3), C::new(-3, 2)]);
    let res = -v;
    assert_eq!(res.0, [C::new(-1, 0), C::new(-2, 3), C::new(3, -2)]);
}

#[test]
fn inversion_property() {
    let v = V([C::new(1i64, 2), C::new(3, 4), C::new(5, 6)]);
    let res = v.clone() + -v.clone();
    assert_eq!(res, V::zero());

    let res = -v.clone() + v.clone();
    assert_eq!(res, V::zero());
}

#[test]
fn test_add_matrix() {
    let m1 = Matrix([[1i64, 2, 3], [4, 5, 6], [7, 8, 9]]);
    let m2 = Matrix([[9i64, 8, 7], [6, 5, 4], [3, 2, 1]]);
    let res = m1 + m2;
    assert_eq!(res.0, [[10, 10, 10], [10, 10, 10], [10, 10, 10]]);
}

#[test]
fn test_mul_matrix() {
    let m = Matrix([[1i64, 2, 3], [4, 5, 6], [7, 8, 9]]);
    let res = m * 2;
    assert_eq!(res.0, [[2, 4, 6], [8, 10, 12], [14, 16, 18]]);
}

#[test]
fn ex2_2_3() {
    let a = Matrix([[C::new(1i64, -1), C::new(3, 0)], [C::new(2, 2), C::new(4, 1)]]);
    let c1 = C::new(0i64, 2);
    let c2 = C::new(1i64, 2);

    assert_eq!((a.clone() * c2) * c1, a.clone() * (c1 * c2));
    assert_eq!(a.clone() * (c1 + c2), a.clone() * c1 + a * c2);
}

#[test]
fn ex_2_2_8() {
    let ba00 = C::new(5i64, 0) * C::new(3, 2)
        + C::new(2, -1) * C::new(1, 0)
        + C::new(6, -4) * C::new(4, -1);

    let ba01 = C::new(2i64, -1) * C::new(4, 2);

    let ba02 = C::new(5i64, 0) * C::new(5, -6)
        + C::new(2, -1) * C::new(0, 1)
        + C::new(6, -4) * C::new(4, 0);

    println!("{}", ba00.to_text());
    println!("{}", ba01.to_text());
    println!("{}", ba02.to_text());
    assert_eq!(ba00, C::new(37, -13));
    assert_eq!(ba01, C::new(10, 0));
    assert_eq!(ba02, C::new(50, -44));
}

#[test]
fn zero_vector_is_zero() {
    assert!(V::<i64, 3>::zero().is_zero());
    assert!(!V([0i64, 0, 1]).is_zero());
    assert!(V::<C<i64>, 2>::zero().is_zero());
}

#[test]
fn vector_drawn_as_padded_column() {
    let v = V([1i64, 22, -3]);
    assert_eq!(v.to_text(), "┌    ┐\n│ 1  │\n│ 22 │\n│ -3 │\n└    ┘");
    let w = V([C::new(1i64, -1)]);
    assert_eq!(w.to_text(), "┌        ┐\n│ 1 - 1i │\n└        ┘");
}

#[test]
fn matrix_equality_by_entries() {
    let m = Matrix([[1i64, 2], [3, 4]]);
    assert_eq!(m, Matrix([[1, 2], [3, 4]]));
    assert_ne!(m, Matrix([[1, 2], [3, 5]]));
    assert_ne!(V([1i64, 2]), V([1, 3]));
}
