use complex_calculator::Complex;

type C<T> = Complex<T>;

#[test]
fn lib_test_add() {
    let a = Complex::new(3i64, -1);
    let b = Complex::new(1, 4);
    let c = a + b;
    assert_eq!(c.re, 4);
    assert_eq!(c.im, 3);
    assert_eq!(c.to_text(), "4 + 3i");

    let a = Complex::new(-3i64, 1);
    let b = Complex::new(2, -4);
    let c = a + b;
    assert_eq!(c.re, -1);
    assert_eq!(c.im, -3);
    assert_eq!(c.to_text(), "-1 - 3i");
}

#[test]
fn lib_test_mul() {
    let a = Complex::new(3i64, -1);
    let b = Complex::new(1, 4);
    let c = a * b;
    assert_eq!(c.re, 7);
    assert_eq!(c.im, 11);
    assert_eq!(c.to_text(), "7 + 11i");

    let a = Complex::new(-3i64, 1);
    let b = Complex::new(2, -4);
    let c = a * b;
    assert_eq!(c.re, -2);
    assert_eq!(c.im, 14);
    assert_eq!(c.to_text(), "-2 + 14i");
}

#[test]
fn test_conj() {
    let a = C::new(1i64, -1);
    let b = a.conjugate();
    assert_eq!(b.re, 1);
    assert_eq!(b.im, 1);
}

#[test]
fn c_mult_c_conj_eq_mod_squared() {
    let a = C::new(3i64, 2);
    let b = a * a.conjugate();
    let c = a.mod_squared();

    assert_eq!(b, c);
}

#[test]
fn lib_ex_1_2_1() {
    let res = C::new(-3i64, -1) * C::new(1, -2);
    println!("{}", res.to_text());
    assert_eq!(res, C::new(-5, 5));
}

#[test]
fn ex_1_3_4() {
    let res = C::new(-2i64, -1) * C::new(-1, -2);
    println!("{}", res.to_text());
    assert_eq!(res, C::new(0, 5));
}

#[test]
fn ex_1_3_7() {
    let res = C::new(2i64, 2) / C::new(1, -1);
    println!("{}", res.to_text());
    assert_eq!(res, C::new(0, 2));
}

#[test]
fn ex_1_3_8() {
    let a = C::new(1i64, -1);
    let res = a * a * a * a * a;
    println!("{}", res.to_text());
    assert_eq!(res, C::new(-4, 4));
}

#[test]
fn subtraction_of_parts() {
    let c = C::new(3i64, -1) - C::new(1, 4);
    assert_eq!(c, C::new(2, -5));
    assert_eq!(c.to_text(), "2 - 5i");
}

#[test]
fn division_rounds_toward_zero() {
    // (7 + 0i) / (2 + 0i): 7 / 2 truncates to 3.
    assert_eq!(C::new(7i64, 0) / C::new(2, 0), C::new(3, 0));
    // (-7 + 0i) / (2 + 0i): -7 / 2 truncates to -3.
    assert_eq!(C::new(-7i64, 0) / C::new(2, 0), C::new(-3, 0));
    // (0 + 3i) / (-1 - i) = (-3 - 3i) / 2, each part truncated to -1.
    assert_eq!(C::new(0i64, 3) / C::new(-1, -1), C::new(-1, -1));
}

#[test]
fn modulus_squared_and_text_of_extremes() {
    assert_eq!(C::new(4i64, -3).mod_squared(), 25);
    assert_eq!(C::new(0i64, 0).to_text(), "0 + 0i");
    assert_eq!(C::new(i64::MIN, i64::MIN).to_text(), "-9223372036854775808 - 9223372036854775808i");
    assert_eq!(C::new(5i64, 0), 5i64);
    assert_ne!(C::new(5i64, 1), 5i64);
}
