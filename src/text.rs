//! Decimal and binary numerals.
use vstd::prelude::*;
use vstd::string::StringExecFns;

verus! {

/// The numeral of the digit `d` in base ten.
pub open spec fn digit_text(d: nat) -> Seq<char> {
    if d == 0 {
        "0"@
    } else if d == 1 {
        "1"@
    } else if d == 2 {
        "2"@
    } else if d == 3 {
        "3"@
    } else if d == 4 {
        "4"@
    } else if d == 5 {
        "5"@
    } else if d == 6 {
        "6"@
    } else if d == 7 {
        "7"@
    } else if d == 8 {
        "8"@
    } else {
        "9"@
    }
}

/// Decimal digits of `x`, most significant first, without leading zeros.
pub open spec fn digits(x: nat) -> Seq<char>
    decreases x,
{
    if x < 10 {
        digit_text(x)
    } else {
        digits(x / 10) + digit_text(x % 10)
    }
}

/// Decimal numeral of `x`, with a minus sign when it is negative.
pub open spec fn decimal(x: int) -> Seq<char> {
    if x < 0 {
        "-"@ + digits((-x) as nat)
    } else {
        digits(x as nat)
    }
}

/// Binary digits of `x`, most significant first, without leading zeros.
pub open spec fn bits(x: nat) -> Seq<char>
    decreases x,
{
    if x < 2 {
        digit_text(x)
    } else {
        bits(x / 2) + digit_text(x % 2)
    }
}

/// Binary numeral of `x`, padded on the left with zeros to `width` digits.
pub open spec fn padded_bits(x: nat, width: nat) -> Seq<char> {
    let b = bits(x);
    if b.len() < width {
        Seq::new((width - b.len()) as nat, |i: int| '0') + b
    } else {
        b
    }
}

fn digit_str(d: u64) -> (r: &'static str)
    requires
        d < 10,
    ensures
        r@ == digit_text(d as nat),
{
    if d == 0 {
        "0"
    } else if d == 1 {
        "1"
    } else if d == 2 {
        "2"
    } else if d == 3 {
        "3"
    } else if d == 4 {
        "4"
    } else if d == 5 {
        "5"
    } else if d == 6 {
        "6"
    } else if d == 7 {
        "7"
    } else if d == 8 {
        "8"
    } else {
        "9"
    }
}

/// Appends the decimal digits of `x`.
pub fn push_digits(out: &mut String, x: u64)
    ensures
        final(out)@ == old(out)@ + digits(x as nat),
    decreases x,
{
    if x >= 10 {
        push_digits(out, x / 10);
    }
    out.append(digit_str(x % 10));
    assert(final(out)@ =~= old(out)@ + digits(x as nat));
}

/// Appends the decimal numeral of `x`.
pub fn push_decimal(out: &mut String, x: i64)
    ensures
        final(out)@ == old(out)@ + decimal(x as int),
{
    if x < 0 {
        out.append("-");
        let m: u64 = ((-(x + 1)) as u64) + 1;
        push_digits(out, m);
        assert(final(out)@ =~= old(out)@ + decimal(x as int));
    } else {
        push_digits(out, x as u64);
    }
}

/// Appends the binary digits of `x`.
fn push_bits(out: &mut String, x: u32)
    ensures
        final(out)@ == old(out)@ + bits(x as nat),
    decreases x,
{
    if x >= 2 {
        push_bits(out, x / 2);
    }
    out.append(digit_str((x % 2) as u64));
    assert(final(out)@ =~= old(out)@ + bits(x as nat));
}

/// Number of binary digits of `x`.
fn bit_count(x: u32) -> (r: u32)
    ensures
        r == bits(x as nat).len(),
        r <= 32,
    decreases x,
{
    proof {
        lemma_bits_len(x as nat);
    }
    if x < 2 {
        1
    } else {
        1 + bit_count(x / 2)
    }
}

proof fn lemma_digit_len(d: nat)
    ensures
        digit_text(d).len() == 1,
{
    reveal_strlit("0");
    reveal_strlit("1");
    reveal_strlit("2");
    reveal_strlit("3");
    reveal_strlit("4");
    reveal_strlit("5");
    reveal_strlit("6");
    reveal_strlit("7");
    reveal_strlit("8");
    reveal_strlit("9");
}

proof fn lemma_bits_len(x: nat)
    ensures
        x < 2 ==> bits(x).len() == 1,
        x >= 2 ==> bits(x).len() == bits(x / 2).len() + 1,
        x < 0x1_0000_0000 ==> 1 <= bits(x).len() <= 32,
{
    lemma_digit_len(x);
    lemma_digit_len(x % 2);
    if x < 0x1_0000_0000 {
        vstd::arithmetic::power2::lemma2_to64();
        lemma_bits_bound(x, 32);
    }
}

proof fn lemma_bits_bound(x: nat, k: nat)
    requires
        x < vstd::arithmetic::power2::pow2(k),
        k >= 1,
    ensures
        1 <= bits(x).len() <= k,
    decreases x,
{
    lemma_digit_len(x);
    lemma_digit_len(x % 2);
    if x >= 2 {
        vstd::arithmetic::power2::lemma_pow2_unfold(k);
        if k == 1 {
            vstd::arithmetic::power2::lemma2_to64();
        } else {
            lemma_bits_bound(x / 2, (k - 1) as nat);
        }
    }
}

/// Appends the binary numeral of `x`, padded with zeros to `width` digits.
pub fn push_padded_bits(out: &mut String, x: u32, width: u32)
    ensures
        final(out)@ == old(out)@ + padded_bits(x as nat, width as nat),
{
    let len = bit_count(x);
    let ghost start = out@;
    if len < width {
        let mut i: u32 = 0;
        while i < width - len
            invariant
                len < width,
                i <= width - len,
                out@ == start + Seq::new(i as nat, |p: int| '0'),
            decreases width - len - i,
        {
            out.append("0");
            proof {
                reveal_strlit("0");
            }
            assert(out@ =~= start + Seq::new((i + 1) as nat, |p: int| '0'));
            i = i + 1;
        }
    }
    push_bits(out, x);
    assert(out@ =~= start + padded_bits(x as nat, width as nat));
}

} // verus!
