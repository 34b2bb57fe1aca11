//! Complex numbers with exact integer parts.
use crate::modular::fits_i64;
use crate::text::{decimal, digits, push_decimal, push_digits};
use vstd::prelude::*;
use vstd::string::StringExecFns;

verus! {

/// The complex number `re + im·i`.
#[derive(Clone, Copy, Debug)]
pub struct Complex<T> {
    pub re: T,
    pub im: T,
}

impl<T> Complex<T> {
    pub fn new(re: T, im: T) -> (r: Self)
        ensures
            r.re == re,
            r.im == im,
    {
        Complex { re, im }
    }
}

/// Real part of the product `a · b`.
pub open spec fn product_re(a: Complex<i64>, b: Complex<i64>) -> int {
    a.re * b.re - a.im * b.im
}

/// Imaginary part of the product `a · b`.
pub open spec fn product_im(a: Complex<i64>, b: Complex<i64>) -> int {
    a.re * b.im + a.im * b.re
}

/// `|a|²`, the squared modulus.
pub open spec fn norm(a: Complex<i64>) -> int {
    a.re * a.re + a.im * a.im
}

/// Numerator of the real part of `a / b`.
pub open spec fn quotient_re_num(a: Complex<i64>, b: Complex<i64>) -> int {
    a.re * b.re + a.im * b.im
}

/// Numerator of the imaginary part of `a / b`.
pub open spec fn quotient_im_num(a: Complex<i64>, b: Complex<i64>) -> int {
    a.im * b.re - a.re * b.im
}

/// Division of integers rounded toward zero, as `i64` division does.
pub open spec fn div_toward_zero(x: int, d: int) -> int {
    if (x >= 0) == (d > 0) {
        (vstd::math::abs(x) / vstd::math::abs(d)) as int
    } else {
        -((vstd::math::abs(x) / vstd::math::abs(d)) as int)
    }
}

/// `re + im·i` as text, or `re - |im|·i` when `im` is negative.
pub open spec fn complex_text(c: Complex<i64>) -> Seq<char> {
    if c.im < 0 {
        decimal(c.re as int) + " - "@ + digits((-c.im) as nat) + "i"@
    } else {
        decimal(c.re as int) + " + "@ + decimal(c.im as int) + "i"@
    }
}

impl Complex<i64> {
    /// `re² + im²`.
    pub fn mod_squared(&self) -> (r: i64)
        requires
            fits_i64(norm(*self)),
        ensures
            r == norm(*self),
    {
        proof {
            lemma_squares_fit(self.re as int, self.im as int);
        }
        self.re * self.re + self.im * self.im
    }

    /// `re - im·i`.
    pub fn conjugate(&self) -> (r: Complex<i64>)
        requires
            self.im != i64::MIN,
        ensures
            r.re == self.re,
            r.im == -self.im,
    {
        Complex { re: self.re, im: -self.im }
    }

    /// The number as text: `4 + 3i`, `-1 - 3i`.
    pub fn to_text(&self) -> (r: String)
        ensures
            r@ == complex_text(*self),
    {
        let mut out = String::new();
        push_decimal(&mut out, self.re);
        if self.im < 0 {
            out.append(" - ");
            let m: u64 = ((-(self.im + 1)) as u64) + 1;
            push_digits(&mut out, m);
        } else {
            out.append(" + ");
            push_decimal(&mut out, self.im);
        }
        out.append("i");
        assert(out@ =~= complex_text(*self));
        out
    }
}

/// Two squares whose sum fits in `i64` fit each on their own.
proof fn lemma_squares_fit(x: int, y: int)
    requires
        fits_i64(x * x + y * y),
    ensures
        0 <= x * x <= x * x + y * y,
        0 <= y * y <= x * x + y * y,
{
    assert(0 <= x * x) by (nonlinear_arith);
    assert(0 <= y * y) by (nonlinear_arith);
}

impl PartialEq for Complex<i64> {
    fn eq(&self, other: &Complex<i64>) -> (r: bool) {
        self.re == other.re && self.im == other.im
    }
}

impl vstd::std_specs::cmp::PartialEqSpecImpl for Complex<i64> {
    open spec fn obeys_eq_spec() -> bool {
        true
    }

    open spec fn eq_spec(&self, other: &Complex<i64>) -> bool {
        self.re == other.re && self.im == other.im
    }
}

/// A complex number equals a real one when its imaginary part is zero.
impl PartialEq<i64> for Complex<i64> {
    fn eq(&self, other: &i64) -> (r: bool) {
        self.re == *other && self.im == 0
    }
}

impl vstd::std_specs::cmp::PartialEqSpecImpl<i64> for Complex<i64> {
    open spec fn obeys_eq_spec() -> bool {
        true
    }

    open spec fn eq_spec(&self, other: &i64) -> bool {
        self.re == *other && self.im == 0
    }
}

impl core::ops::Add for Complex<i64> {
    type Output = Complex<i64>;

    fn add(self, rhs: Complex<i64>) -> (r: Complex<i64>) {
        Complex { re: self.re + rhs.re, im: self.im + rhs.im }
    }
}

impl vstd::std_specs::ops::AddSpecImpl for Complex<i64> {
    open spec fn obeys_add_spec() -> bool {
        true
    }

    open spec fn add_req(self, rhs: Complex<i64>) -> bool {
        fits_i64(self.re + rhs.re) && fits_i64(self.im + rhs.im)
    }

    open spec fn add_spec(self, rhs: Complex<i64>) -> Complex<i64> {
        Complex { re: (self.re + rhs.re) as i64, im: (self.im + rhs.im) as i64 }
    }
}

impl core::ops::Sub for Complex<i64> {
    type Output = Complex<i64>;

    fn sub(self, rhs: Complex<i64>) -> (r: Complex<i64>) {
        Complex { re: self.re - rhs.re, im: self.im - rhs.im }
    }
}

impl vstd::std_specs::ops::SubSpecImpl for Complex<i64> {
    open spec fn obeys_sub_spec() -> bool {
        true
    }

    open spec fn sub_req(self, rhs: Complex<i64>) -> bool {
        fits_i64(self.re - rhs.re) && fits_i64(self.im - rhs.im)
    }

    open spec fn sub_spec(self, rhs: Complex<i64>) -> Complex<i64> {
        Complex { re: (self.re - rhs.re) as i64, im: (self.im - rhs.im) as i64 }
    }
}

proof fn lemma_product_bound(x: int, y: int)
    requires
        fits_i64(x),
        fits_i64(y),
    ensures
        -0x4000_0000_0000_0000_0000_0000_0000_0000 <= x * y <= 0x4000_0000_0000_0000_0000_0000_0000_0000,
{
    assert(-0x4000_0000_0000_0000_0000_0000_0000_0000 <= x * y <= 0x4000_0000_0000_0000_0000_0000_0000_0000) by (nonlinear_arith)
        requires
            -0x8000_0000_0000_0000 <= x <= 0x7fff_ffff_ffff_ffff,
            -0x8000_0000_0000_0000 <= y <= 0x7fff_ffff_ffff_ffff,
    ;
}

impl core::ops::Mul for Complex<i64> {
    type Output = Complex<i64>;

    fn mul(self, rhs: Complex<i64>) -> (r: Complex<i64>) {
        proof {
            lemma_product_bound(self.re as int, rhs.re as int);
            lemma_product_bound(self.im as int, rhs.im as int);
            lemma_product_bound(self.re as int, rhs.im as int);
            lemma_product_bound(self.im as int, rhs.re as int);
        }
        let re = (self.re as i128) * (rhs.re as i128) - (self.im as i128) * (rhs.im as i128);
        let im = (self.re as i128) * (rhs.im as i128) + (self.im as i128) * (rhs.re as i128);
        Complex { re: re as i64, im: im as i64 }
    }
}

impl vstd::std_specs::ops::MulSpecImpl for Complex<i64> {
    open spec fn obeys_mul_spec() -> bool {
        true
    }

    open spec fn mul_req(self, rhs: Complex<i64>) -> bool {
        fits_i64(product_re(self, rhs)) && fits_i64(product_im(self, rhs))
    }

    open spec fn mul_spec(self, rhs: Complex<i64>) -> Complex<i64> {
        Complex { re: product_re(self, rhs) as i64, im: product_im(self, rhs) as i64 }
    }
}

/// `x / d` rounded toward zero, for a quotient that fits in `i64`.
fn div_i128(x: i128, d: i128) -> (r: i64)
    requires
        0 < d,
        fits_i64(div_toward_zero(x as int, d as int)),
    ensures
        r == div_toward_zero(x as int, d as int),
{
    if x >= 0 {
        (x / d) as i64
    } else {
        let m: u128 = ((-(x + 1)) as u128) + 1;
        let q: u128 = m / (d as u128);
        -(q as i128) as i64
    }
}

impl core::ops::Div for Complex<i64> {
    type Output = Complex<i64>;

    fn div(self, rhs: Complex<i64>) -> (r: Complex<i64>) {
        proof {
            lemma_product_bound(self.re as int, rhs.re as int);
            lemma_product_bound(self.im as int, rhs.im as int);
            lemma_product_bound(self.re as int, rhs.im as int);
            lemma_product_bound(self.im as int, rhs.re as int);
            lemma_product_bound(rhs.re as int, rhs.re as int);
            lemma_product_bound(rhs.im as int, rhs.im as int);
            assert(0 <= rhs.re * rhs.re) by (nonlinear_arith);
            assert(0 <= rhs.im * rhs.im) by (nonlinear_arith);
        }
        let den = (rhs.re as i128) * (rhs.re as i128) + (rhs.im as i128) * (rhs.im as i128);
        let re_num = (self.re as i128) * (rhs.re as i128) + (self.im as i128) * (rhs.im as i128);
        let im_num = (self.im as i128) * (rhs.re as i128) - (self.re as i128) * (rhs.im as i128);
        let re = div_i128(re_num, den);
        let im = div_i128(im_num, den);
        Complex { re, im }
    }
}

impl vstd::std_specs::ops::DivSpecImpl for Complex<i64> {
    open spec fn obeys_div_spec() -> bool {
        true
    }

    open spec fn div_req(self, rhs: Complex<i64>) -> bool {
        &&& norm(rhs) != 0
        &&& norm(rhs) <= i128::MAX
        &&& i128::MIN <= quotient_re_num(self, rhs) <= i128::MAX
        &&& i128::MIN <= quotient_im_num(self, rhs) <= i128::MAX
        &&& fits_i64(div_toward_zero(quotient_re_num(self, rhs), norm(rhs)))
        &&& fits_i64(div_toward_zero(quotient_im_num(self, rhs), norm(rhs)))
    }

    open spec fn div_spec(self, rhs: Complex<i64>) -> Complex<i64> {
        Complex {
            re: div_toward_zero(quotient_re_num(self, rhs), norm(rhs)) as i64,
            im: div_toward_zero(quotient_im_num(self, rhs), norm(rhs)) as i64,
        }
    }
}

} // verus!
