//! Arithmetic on `i64` taken modulo 2^64, used to accumulate sums whose final
//! value fits in `i64` even where an intermediate sum would not.
use vstd::arithmetic::div_mod::{
    lemma_add_mod_noop, lemma_mod_add_multiples_vanish, lemma_mod_bound,
    lemma_mod_sub_multiples_vanish, lemma_small_mod,
};
use vstd::prelude::*;

verus! {

/// 2^64, the number of `i64` values.
pub open spec fn word() -> int {
    0x1_0000_0000_0000_0000
}

/// The `i64` that is congruent to `x` modulo 2^64.
pub open spec fn wrap64(x: int) -> int {
    let m = x % word();
    if m > i64::MAX {
        m - word()
    } else {
        m
    }
}

pub open spec fn fits_i64(x: int) -> bool {
    i64::MIN <= x <= i64::MAX
}

pub proof fn lemma_wrap_mod(x: int)
    ensures
        wrap64(x) % word() == x % word(),
{
    let m = x % word();
    lemma_mod_bound(x, word());
    lemma_small_mod(m as nat, word() as nat);
    if m > i64::MAX {
        lemma_mod_sub_multiples_vanish(m, word());
    }
}

/// A value that fits is its own representative.
pub proof fn lemma_wrap_fits(x: int)
    requires
        fits_i64(x),
    ensures
        wrap64(x) == x,
{
    if x >= 0 {
        lemma_small_mod(x as nat, word() as nat);
    } else {
        lemma_mod_add_multiples_vanish(x, word());
        lemma_small_mod((word() + x) as nat, word() as nat);
    }
}

/// Wrapping an operand of a sum does not change the wrapped sum.
pub proof fn lemma_wrap_add(a: int, b: int)
    ensures
        wrap64(wrap64(a) + b) == wrap64(a + b),
{
    lemma_wrap_mod(a);
    lemma_add_mod_noop(wrap64(a), b, word());
    lemma_add_mod_noop(a, b, word());
}

/// `x + y` modulo 2^64.
pub fn add_wrapping(x: i64, y: i64) -> (r: i64)
    ensures
        r == wrap64(x + y),
{
    let ghost s = x as int + y as int;
    proof {
        if s > i64::MAX {
            lemma_mod_sub_multiples_vanish(s, word());
            lemma_wrap_fits(s - word());
        } else if s < i64::MIN {
            lemma_mod_add_multiples_vanish(s, word());
            lemma_wrap_fits(s + word());
        } else {
            lemma_wrap_fits(s);
        }
    }
    x.wrapping_add(y)
}

/// `x * y` modulo 2^64.
pub fn mul_wrapping(x: i64, y: i64) -> (r: i64)
    ensures
        r == wrap64(x * y),
{
    proof {
        lemma_mod_bound(x * y, word());
    }
    x.wrapping_mul(y)
}

} // verus!
