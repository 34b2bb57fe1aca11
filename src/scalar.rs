//! The operations that vectors and matrices ask of their entries.
use crate::complex::{complex_text, product_im, product_re, Complex};
use crate::modular::fits_i64;
use crate::text::{decimal, push_decimal};
use vstd::prelude::*;

verus! {

/// A number that can be added, multiplied, negated and written out, where
/// each operation may first ask that its result be representable.
pub trait Scalar: Sized + Copy {
    spec fn zero_spec() -> Self;

    spec fn add_ok(a: Self, b: Self) -> bool;

    spec fn sum(a: Self, b: Self) -> Self;

    spec fn mul_ok(a: Self, b: Self) -> bool;

    spec fn product(a: Self, b: Self) -> Self;

    spec fn neg_ok(a: Self) -> bool;

    spec fn negation(a: Self) -> Self;

    spec fn text(a: Self) -> Seq<char>;

    fn zero() -> (r: Self)
        ensures
            r == Self::zero_spec(),
    ;

    fn plus(a: Self, b: Self) -> (r: Self)
        requires
            Self::add_ok(a, b),
        ensures
            r == Self::sum(a, b),
    ;

    fn times(a: Self, b: Self) -> (r: Self)
        requires
            Self::mul_ok(a, b),
        ensures
            r == Self::product(a, b),
    ;

    fn negate(a: Self) -> (r: Self)
        requires
            Self::neg_ok(a),
        ensures
            r == Self::negation(a),
    ;

    fn same(a: &Self, b: &Self) -> (r: bool)
        ensures
            r == (*a == *b),
    ;

    fn render(&self) -> (r: String)
        ensures
            r@ == Self::text(*self),
    ;
}

impl Scalar for i64 {
    open spec fn zero_spec() -> i64 {
        0
    }

    open spec fn add_ok(a: i64, b: i64) -> bool {
        fits_i64(a + b)
    }

    open spec fn sum(a: i64, b: i64) -> i64 {
        (a + b) as i64
    }

    open spec fn mul_ok(a: i64, b: i64) -> bool {
        fits_i64(a * b)
    }

    open spec fn product(a: i64, b: i64) -> i64 {
        (a * b) as i64
    }

    open spec fn neg_ok(a: i64) -> bool {
        a != i64::MIN
    }

    open spec fn negation(a: i64) -> i64 {
        (-a) as i64
    }

    open spec fn text(a: i64) -> Seq<char> {
        decimal(a as int)
    }

    fn zero() -> (r: i64) {
        0
    }

    fn plus(a: i64, b: i64) -> (r: i64) {
        a + b
    }

    fn times(a: i64, b: i64) -> (r: i64) {
        a * b
    }

    fn negate(a: i64) -> (r: i64) {
        -a
    }

    fn same(a: &i64, b: &i64) -> (r: bool) {
        *a == *b
    }

    fn render(&self) -> (r: String) {
        let mut out = String::new();
        push_decimal(&mut out, *self);
        assert(out@ =~= decimal(*self as int));
        out
    }
}

impl Scalar for Complex<i64> {
    open spec fn zero_spec() -> Complex<i64> {
        Complex { re: 0, im: 0 }
    }

    open spec fn add_ok(a: Complex<i64>, b: Complex<i64>) -> bool {
        fits_i64(a.re + b.re) && fits_i64(a.im + b.im)
    }

    open spec fn sum(a: Complex<i64>, b: Complex<i64>) -> Complex<i64> {
        Complex { re: (a.re + b.re) as i64, im: (a.im + b.im) as i64 }
    }

    open spec fn mul_ok(a: Complex<i64>, b: Complex<i64>) -> bool {
        fits_i64(product_re(a, b)) && fits_i64(product_im(a, b))
    }

    open spec fn product(a: Complex<i64>, b: Complex<i64>) -> Complex<i64> {
        Complex { re: product_re(a, b) as i64, im: product_im(a, b) as i64 }
    }

    open spec fn neg_ok(a: Complex<i64>) -> bool {
        a.re != i64::MIN && a.im != i64::MIN
    }

    open spec fn negation(a: Complex<i64>) -> Complex<i64> {
        Complex { re: (-a.re) as i64, im: (-a.im) as i64 }
    }

    open spec fn text(a: Complex<i64>) -> Seq<char> {
        complex_text(a)
    }

    fn zero() -> (r: Complex<i64>) {
        Complex { re: 0, im: 0 }
    }

    fn plus(a: Complex<i64>, b: Complex<i64>) -> (r: Complex<i64>) {
        a + b
    }

    fn times(a: Complex<i64>, b: Complex<i64>) -> (r: Complex<i64>) {
        a * b
    }

    fn negate(a: Complex<i64>) -> (r: Complex<i64>) {
        Complex { re: -a.re, im: -a.im }
    }

    fn same(a: &Complex<i64>, b: &Complex<i64>) -> (r: bool) {
        a.re == b.re && a.im == b.im
    }

    fn render(&self) -> (r: String) {
        self.to_text()
    }
}

} // verus!
