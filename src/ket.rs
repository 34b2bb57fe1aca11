//! Basis terms: `c|ket⟩⟨bra|` of an operator and `c|ket⟩` of a state.
use crate::modular::fits_i64;
use crate::text::{decimal, padded_bits, push_decimal, push_padded_bits};
use vstd::arithmetic::power2::{
    lemma2_to64, lemma_pow2_adds, lemma_pow2_pos, lemma_pow2_strictly_increases,
    lemma_pow2_unfold, pow2,
};
use vstd::prelude::*;
use vstd::string::StringExecFns;

verus! {

/// The term `scalar |ket⟩⟨bra|` of an operator on `n` qubits.
#[derive(Clone, Copy, Debug, PartialEq, Eq, Structural)]
pub struct KetBra {
    pub scalar: i64,
    pub ket: u32,
    pub bra: u32,
    pub n: u32,
}

/// Index of the basis vector `|k1⟩ ⊗ |k2⟩` when the second factor has `n2` qubits:
/// the bits of `k1` followed by the `n2` bits of `k2`.
pub open spec fn tensor_index(k1: int, k2: int, n2: nat) -> int {
    k1 * pow2(n2) + k2
}

impl KetBra {
    /// Both indices name basis vectors of the `n`-qubit space.
    pub open spec fn wf(self) -> bool {
        &&& self.n <= 32
        &&& self.ket < pow2(self.n as nat)
        &&& self.bra < pow2(self.n as nat)
    }

    /// The term of the joint system made of `self`'s and `other`'s spaces.
    pub open spec fn tensor_spec(self, other: KetBra) -> KetBra {
        KetBra {
            scalar: (self.scalar * other.scalar) as i64,
            ket: tensor_index(self.ket as int, other.ket as int, other.n as nat) as u32,
            bra: tensor_index(self.bra as int, other.bra as int, other.n as nat) as u32,
            n: (self.n + other.n) as u32,
        }
    }

    pub open spec fn tensor_req(self, other: KetBra) -> bool {
        &&& self.wf()
        &&& other.wf()
        &&& self.n + other.n <= 32
        &&& i64::MIN <= self.scalar * other.scalar <= i64::MAX
    }

    /// Tensor product of two terms of independent subsystems.
    pub fn tensor(&self, other: &KetBra) -> (r: KetBra)
        requires
            self.tensor_req(*other),
        ensures
            r == self.tensor_spec(*other),
            r.scalar == self.scalar * other.scalar,
            r.ket == tensor_index(self.ket as int, other.ket as int, other.n as nat),
            r.bra == tensor_index(self.bra as int, other.bra as int, other.n as nat),
            r.n == self.n + other.n,
            r.wf(),
    {
        let p = pow2_u64(other.n);
        proof {
            lemma_tensor_index_bound(self.ket as int, other.ket as int, self.n as nat, other.n as nat);
            lemma_tensor_index_bound(self.bra as int, other.bra as int, self.n as nat, other.n as nat);
            lemma_u32_bound((self.n + other.n) as u32);
        }
        let ket = (self.ket as u64) * p + other.ket as u64;
        let bra = (self.bra as u64) * p + other.bra as u64;
        KetBra { scalar: self.scalar * other.scalar, ket: ket as u32, bra: bra as u32, n: self.n + other.n }
    }
}

pub(crate) proof fn lemma_u32_bound(n: u32)
    requires
        n <= 32,
    ensures
        pow2(n as nat) <= 0x1_0000_0000,
        pow2(32) == 0x1_0000_0000,
{
    lemma2_to64();
    if n < 32 {
        lemma_pow2_strictly_increases(n as nat, 32);
    }
}

proof fn lemma_tensor_index_bound(k1: int, k2: int, n1: nat, n2: nat)
    requires
        0 <= k1 < pow2(n1),
        0 <= k2 < pow2(n2),
    ensures
        0 <= tensor_index(k1, k2, n2) < pow2(n1 + n2),
{
    lemma_pow2_adds(n1, n2);
    lemma_pow2_pos(n2);
    let base1 = pow2(n1) as int;
    let base2 = pow2(n2) as int;
    assert(k1 * base2 + k2 < base1 * base2) by (nonlinear_arith)
        requires
            0 <= k1 < base1,
            0 <= k2 < base2,
    ;
    assert(0 <= k1 * base2) by (nonlinear_arith)
        requires
            0 <= k1,
            0 < base2,
    ;
}

/// Tensoring the projector `|k1⟩⟨k1|` on `n1` qubits with `|k2⟩⟨k2|` on `n2`
/// qubits gives the projector on `|k1 · 2^n2 + k2⟩`, a basis vector of the
/// `n1 + n2`-qubit space: the bits of `k1` followed by those of `k2`.
pub proof fn lemma_tensor_projectors(k1: u32, k2: u32, n1: u32, n2: u32, c1: i64, c2: i64)
    requires
        (KetBra { scalar: c1, ket: k1, bra: k1, n: n1 }).tensor_req(
            KetBra { scalar: c2, ket: k2, bra: k2, n: n2 },
        ),
    ensures
        ({
            let t = (KetBra { scalar: c1, ket: k1, bra: k1, n: n1 }).tensor_spec(
                KetBra { scalar: c2, ket: k2, bra: k2, n: n2 },
            );
            &&& t.ket == t.bra
            &&& t.ket == k1 * pow2(n2 as nat) + k2
            &&& t.ket < pow2((n1 + n2) as nat)
            &&& t.n == n1 + n2
            &&& t.scalar == c1 * c2
        }),
{
    lemma_tensor_index_bound(k1 as int, k2 as int, n1 as nat, n2 as nat);
    lemma_u32_bound((n1 + n2) as u32);
}

/// `2^n` for a qubit count of at most 32.
pub(crate) fn pow2_u64(n: u32) -> (r: u64)
    requires
        n <= 32,
    ensures
        r == pow2(n as nat),
{
    let mut r: u64 = 1;
    let mut i: u32 = 0;
    proof {
        lemma2_to64();
    }
    while i < n
        invariant
            i <= n <= 32,
            r == pow2(i as nat),
        decreases n - i,
    {
        proof {
            lemma_pow2_unfold((i + 1) as nat);
            lemma_u32_bound(i);
        }
        r = r * 2;
        i = i + 1;
    }
    r
}

impl KetBra {
    /// The term with its coefficient negated.
    pub fn neg(self) -> (r: KetBra)
        requires
            self.scalar != i64::MIN,
        ensures
            r == (KetBra { scalar: (-self.scalar) as i64, ..self }),
    {
        KetBra { scalar: -self.scalar, ket: self.ket, bra: self.bra, n: self.n }
    }
}

/// The term `scalar |ket⟩` of a state of `n` qubits.
#[derive(Clone, Copy, Debug, PartialEq, Eq, Structural)]
pub struct Ket {
    pub scalar: i64,
    pub ket: u32,
    pub n: u32,
}


/// A coefficient as written before a term: nothing when it is one.
pub open spec fn coeff_text(c: i64) -> Seq<char> {
    if c == 1 {
        Seq::empty()
    } else {
        decimal(c as int)
    }
}

/// `c|ket⟩⟨bra|`, the indices in binary with `n` digits.
pub open spec fn ketbra_text(t: KetBra) -> Seq<char> {
    coeff_text(t.scalar) + "|"@ + padded_bits(t.ket as nat, t.n as nat) + "⟩⟨"@ + padded_bits(
        t.bra as nat,
        t.n as nat,
    ) + "|"@
}

/// `c|ket⟩`, the index in binary with `n` digits.
pub open spec fn ket_text(t: Ket) -> Seq<char> {
    coeff_text(t.scalar) + "|"@ + padded_bits(t.ket as nat, t.n as nat) + "⟩"@
}

fn push_coeff(out: &mut String, c: i64)
    ensures
        final(out)@ == old(out)@ + coeff_text(c),
{
    if c != 1 {
        push_decimal(out, c);
    } else {
        assert(out@ =~= out@ + coeff_text(c));
    }
}

impl KetBra {
    pub(crate) fn push_text(&self, out: &mut String)
        ensures
            final(out)@ == old(out)@ + ketbra_text(*self),
    {
        push_coeff(out, self.scalar);
        out.append("|");
        push_padded_bits(out, self.ket, self.n);
        out.append("⟩⟨");
        push_padded_bits(out, self.bra, self.n);
        out.append("|");
        assert(final(out)@ =~= old(out)@ + ketbra_text(*self));
    }

    /// The term in bra-ket notation.
    pub fn to_text(&self) -> (r: String)
        ensures
            r@ == ketbra_text(*self),
    {
        let mut out = String::new();
        self.push_text(&mut out);
        assert(out@ =~= ketbra_text(*self));
        out
    }
}

impl Ket {
    pub(crate) fn push_text(&self, out: &mut String)
        ensures
            final(out)@ == old(out)@ + ket_text(*self),
    {
        push_coeff(out, self.scalar);
        out.append("|");
        push_padded_bits(out, self.ket, self.n);
        out.append("⟩");
        assert(final(out)@ =~= old(out)@ + ket_text(*self));
    }

    /// The term in bra-ket notation.
    pub fn to_text(&self) -> (r: String)
        ensures
            r@ == ket_text(*self),
    {
        let mut out = String::new();
        self.push_text(&mut out);
        assert(out@ =~= ket_text(*self));
        out
    }
}

} // verus!
