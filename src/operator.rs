//! Operators and states as sparse sums of basis terms, and their algebra:
//! tensor product, composition, addition and application to a state.
use crate::ket::{ket_text, ketbra_text, lemma_u32_bound, pow2_u64, Ket, KetBra};
use crate::merge::{
    accumulate, all_bras, all_qubits, distinct_slots, in_slot, lemma_slot_at, simplified, simplify,
    slot_coeff,
};
use crate::modular::{fits_i64, lemma_wrap_add, lemma_wrap_fits, mul_wrapping, wrap64};
use crate::text::{decimal, push_decimal};
use vstd::arithmetic::mul::{
    lemma_mul_is_commutative, lemma_mul_is_distributive_add, lemma_mul_is_distributive_add_other_way,
};
use vstd::arithmetic::power2::pow2;
use vstd::prelude::*;
use vstd::string::StringExecFns;

verus! {

/// The operator `scalar · Σ ones`.
#[derive(Clone, Debug)]
pub struct Operator {
    pub scalar: i64,
    pub ones: Vec<KetBra>,
}

/// Why two operands cannot be combined.
#[derive(Clone, Copy, Debug, PartialEq, Eq, Structural)]
pub enum AlgebraError {
    /// The terms of the operands are not all tagged with one qubit count.
    InvalidDimension,
}

/// All terms are tagged with one qubit count.
pub open spec fn qubits_agree(ones: Seq<KetBra>) -> bool {
    forall|i: int, j: int|
        0 <= i < ones.len() && 0 <= j < ones.len() ==> #[trigger] ones[i].n == #[trigger] ones[j].n
}

/// Entry `(k, col)` of the product of the matrices of `a` and `b`: the sum,
/// over the terms `t` of `b` in column `col`, of `a[k][t.ket] * t.scalar`.
pub open spec fn compose_coeff(a: Seq<KetBra>, b: Seq<KetBra>, k: int, col: int) -> int
    decreases b.len(),
{
    if b.len() == 0 {
        0
    } else {
        compose_coeff(a, b.drop_last(), k, col) + if b.last().bra == col {
            slot_coeff(a, k, b.last().ket as int) * b.last().scalar
        } else {
            0
        }
    }
}

/// Whether the terms of `a` and `b` together are tagged with one qubit count.
fn qubits_match(a: &Vec<KetBra>, b: &Vec<KetBra>) -> (r: bool)
    ensures
        r == qubits_agree(a@ + b@),
{
    let ghost all = a@ + b@;
    if a.len() == 0 && b.len() == 0 {
        return true;
    }
    let n = if a.len() > 0 { a[0].n } else { b[0].n };
    assert(all[0].n == n);
    let mut i: usize = 0;
    while i < a.len()
        invariant
            all == a@ + b@,
            all.len() > 0,
            all[0].n == n,
            0 <= i <= a.len(),
            forall|p: int| 0 <= p < i ==> #[trigger] all[p].n == n,
        decreases a.len() - i,
    {
        if a[i].n != n {
            assert(all[i as int].n != all[0].n);
            return false;
        }
        i = i + 1;
    }
    let mut j: usize = 0;
    while j < b.len()
        invariant
            all == a@ + b@,
            all.len() > 0,
            all[0].n == n,
            0 <= j <= b.len(),
            forall|p: int| 0 <= p < a.len() + j ==> #[trigger] all[p].n == n,
        decreases b.len() - j,
    {
        if b[j].n != n {
            assert(all[a.len() + j].n != all[0].n);
            return false;
        }
        j = j + 1;
    }
    true
}

impl Operator {
    /// Composition `self ∘ rhs`, the product of the two matrices: the
    /// overall scalars multiply, the products of the terms `|k⟩⟨m|` and
    /// `|m⟩⟨b|` are merged by slot `|k⟩⟨b|`, and slots whose sum is zero are
    /// dropped. The contract leaves the order of the terms open.
    pub fn mul(self, rhs: Operator) -> (r: Result<Operator, AlgebraError>)
        requires
            fits_i64(self.scalar * rhs.scalar),
            forall|k: int, col: int|
                fits_i64(#[trigger] compose_coeff(self.ones@, rhs.ones@, k, col)),
        ensures
            r is Err <==> !qubits_agree(self.ones@ + rhs.ones@),
            r is Err ==> r == Err::<Operator, AlgebraError>(AlgebraError::InvalidDimension),
            r matches Ok(op) ==> {
                &&& op.scalar == self.scalar * rhs.scalar
                &&& simplified(op.ones@)
                &&& self.ones.len() > 0 ==> all_qubits(op.ones@, self.ones@[0].n)
                &&& forall|k: int, col: int|
                    #[trigger] slot_coeff(op.ones@, k, col) == compose_coeff(
                        self.ones@,
                        rhs.ones@,
                        k,
                        col,
                    )
                &&& forall|i: int|
                    0 <= i < op.ones.len() ==> compose_coeff(
                        self.ones@,
                        rhs.ones@,
                        #[trigger] op.ones@[i].ket as int,
                        op.ones@[i].bra as int,
                    ) != 0
            },
    {
        if !qubits_match(&self.ones, &rhs.ones) {
            return Err(AlgebraError::InvalidDimension);
        }
        let ghost a = self.ones@;
        let ghost b = rhs.ones@;
        let n = if self.ones.len() > 0 { self.ones[0].n } else { 0 };
        let mut acc: Vec<KetBra> = Vec::new();
        let mut j: usize = 0;
        while j < rhs.ones.len()
            invariant
                a == self.ones@,
                b == rhs.ones@,
                0 <= j <= b.len(),
                distinct_slots(acc@),
                all_qubits(acc@, n),
                forall|k: int, col: int|
                    #[trigger] slot_coeff(acc@, k, col) == wrap64(
                        compose_coeff(a, b.take(j as int), k, col),
                    ),
            decreases b.len() - j,
        {
            let o = rhs.ones[j];
            let mut i: usize = 0;
            assert forall|k: int, col: int|
                #[trigger] slot_coeff(acc@, k, col) == wrap64(
                    compose_coeff(a, b.take(j as int), k, col) + if o.bra == col {
                        slot_coeff(a.take(0), k, o.ket as int) * o.scalar
                    } else {
                        0
                    },
                ) by {
                assert(slot_coeff(a.take(0), k, o.ket as int) == 0);
            }
            while i < self.ones.len()
                invariant
                    a == self.ones@,
                    b == rhs.ones@,
                    0 <= j < b.len(),
                    o == b[j as int],
                    0 <= i <= a.len(),
                    distinct_slots(acc@),
                    all_qubits(acc@, n),
                    forall|k: int, col: int|
                        #[trigger] slot_coeff(acc@, k, col) == wrap64(
                            compose_coeff(a, b.take(j as int), k, col) + if o.bra == col {
                                slot_coeff(a.take(i as int), k, o.ket as int) * o.scalar
                            } else {
                                0
                            },
                        ),
                decreases a.len() - i,
            {
                let t = self.ones[i];
                let ghost before = acc@;
                proof {
                    assert(a.take(i + 1).drop_last() =~= a.take(i as int));
                    assert(a.take(i + 1).last() == t);
                }
                if t.bra == o.ket {
                    let v = mul_wrapping(t.scalar, o.scalar);
                    accumulate(&mut acc, t.ket, o.bra, n, v);
                }
                proof {
                    assert forall|k: int, col: int|
                        #[trigger] slot_coeff(acc@, k, col) == wrap64(
                            compose_coeff(a, b.take(j as int), k, col) + if o.bra == col {
                                slot_coeff(a.take(i + 1), k, o.ket as int) * o.scalar
                            } else {
                                0
                            },
                        ) by {
                        let c = compose_coeff(a, b.take(j as int), k, col);
                        let s0 = slot_coeff(a.take(i as int), k, o.ket as int);
                        let d = if in_slot(t, k, o.ket as int) { t.scalar as int } else { 0 };
                        assert(slot_coeff(a.take(i + 1), k, o.ket as int) == s0 + d);
                        lemma_mul_is_distributive_add_other_way(o.scalar as int, s0, d);
                        if t.bra == o.ket && k == t.ket && col == o.bra {
                            let p = if o.bra == col { s0 * o.scalar } else { 0 };
                            lemma_wrap_add(c + p, t.scalar * o.scalar);
                            lemma_wrap_add(t.scalar * o.scalar, wrap64(c + p));
                            lemma_wrap_add(t.scalar * o.scalar, c + p);
                        }
                    }
                }
                i = i + 1;
            }
            proof {
                assert(a.take(a.len() as int) =~= a);
                assert(b.take(j + 1).drop_last() =~= b.take(j as int));
                assert(b.take(j + 1).last() == o);
            }
            j = j + 1;
        }
        proof {
            assert(b.take(b.len() as int) =~= b);
        }
        let ones = simplify(&acc);
        proof {
            assert forall|k: int, col: int|
                #[trigger] slot_coeff(ones@, k, col) == compose_coeff(a, b, k, col) by {
                lemma_wrap_fits(compose_coeff(a, b, k, col));
            }
            assert forall|i: int| 0 <= i < ones.len() implies compose_coeff(
                a,
                b,
                #[trigger] ones@[i].ket as int,
                ones@[i].bra as int,
            ) != 0 by {
                lemma_slot_at(ones@, i);
            }
            assert forall|i: int| 0 <= i < ones.len() implies #[trigger] ones@[i].n == n by {
                assert(acc@.contains(ones@[i]));
            }
        }
        Ok(Operator { scalar: self.scalar * rhs.scalar, ones })
    }

    /// Sum `self + rhs` with the terms of each slot merged and zero entries
    /// dropped. `self`'s overall scalar is multiplied into every term, those
    /// of `rhs` included, and the result's overall scalar is one.
    pub fn add(self, rhs: Operator) -> (r: Result<Operator, AlgebraError>)
        requires
            forall|k: int, col: int|
                fits_i64(#[trigger] sum_coeff(self.scalar as int, self.ones@, rhs.ones@, k, col)),
        ensures
            r is Err <==> !qubits_agree(self.ones@ + rhs.ones@),
            r is Err ==> r == Err::<Operator, AlgebraError>(AlgebraError::InvalidDimension),
            r matches Ok(op) ==> {
                &&& op.scalar == 1
                &&& simplified(op.ones@)
                &&& self.ones.len() > 0 ==> all_qubits(op.ones@, self.ones@[0].n)
                &&& forall|k: int, col: int|
                    #[trigger] slot_coeff(op.ones@, k, col) == sum_coeff(
                        self.scalar as int,
                        self.ones@,
                        rhs.ones@,
                        k,
                        col,
                    )
                &&& forall|i: int|
                    0 <= i < op.ones.len() ==> sum_coeff(
                        self.scalar as int,
                        self.ones@,
                        rhs.ones@,
                        #[trigger] op.ones@[i].ket as int,
                        op.ones@[i].bra as int,
                    ) != 0
            },
    {
        if !qubits_match(&self.ones, &rhs.ones) {
            return Err(AlgebraError::InvalidDimension);
        }
        let ghost a = self.ones@;
        let ghost b = rhs.ones@;
        let ghost s = self.scalar as int;
        let n = if self.ones.len() > 0 {
            self.ones[0].n
        } else if rhs.ones.len() > 0 {
            rhs.ones[0].n
        } else {
            0
        };
        proof {
            if self.ones.len() > 0 {
                assert forall|p: int| 0 <= p < b.len() implies #[trigger] b[p].n == n by {
                    assert((a + b)[0].n == (a + b)[a.len() + p].n);
                }
            }
            assert forall|p: int| 0 <= p < a.len() implies #[trigger] a[p].n == n by {
                assert((a + b)[0].n == (a + b)[p].n);
            }
            if self.ones.len() == 0 {
                assert forall|p: int| 0 <= p < b.len() implies #[trigger] b[p].n == n by {
                    assert((a + b)[0].n == (a + b)[a.len() + p].n);
                }
            }
        }
        let mut acc: Vec<KetBra> = Vec::new();
        let mut i: usize = 0;
        while i < self.ones.len()
            invariant
                a == self.ones@,
                s == self.scalar,
                0 <= i <= a.len(),
                distinct_slots(acc@),
                all_qubits(acc@, n),
                forall|k: int, col: int|
                    #[trigger] slot_coeff(acc@, k, col) == wrap64(
                        s * slot_coeff(a.take(i as int), k, col),
                    ),
            decreases a.len() - i,
        {
            let t = self.ones[i];
            proof {
                assert(a.take(i + 1).drop_last() =~= a.take(i as int));
                assert(a.take(i + 1).last() == t);
            }
            let v = mul_wrapping(t.scalar, self.scalar);
            accumulate(&mut acc, t.ket, t.bra, n, v);
            proof {
                assert forall|k: int, col: int|
                    #[trigger] slot_coeff(acc@, k, col) == wrap64(
                        s * slot_coeff(a.take(i + 1), k, col),
                    ) by {
                    let x = slot_coeff(a.take(i as int), k, col);
                    let d = if in_slot(t, k, col) { t.scalar as int } else { 0 };
                    assert(slot_coeff(a.take(i + 1), k, col) == x + d);
                    lemma_step(s, x, d, t.scalar as int, in_slot(t, k, col));
                }
            }
            i = i + 1;
        }
        proof {
            assert(a.take(a.len() as int) =~= a);
        }
        let mut j: usize = 0;
        while j < rhs.ones.len()
            invariant
                a == self.ones@,
                b == rhs.ones@,
                s == self.scalar,
                0 <= j <= b.len(),
                distinct_slots(acc@),
                all_qubits(acc@, n),
                forall|p: int| 0 <= p < b.len() ==> #[trigger] b[p].n == n,
                forall|k: int, col: int|
                    #[trigger] slot_coeff(acc@, k, col) == wrap64(
                        s * (slot_coeff(a, k, col) + slot_coeff(b.take(j as int), k, col)),
                    ),
            decreases b.len() - j,
        {
            let t = rhs.ones[j];
            proof {
                assert(b.take(j + 1).drop_last() =~= b.take(j as int));
                assert(b.take(j + 1).last() == t);
            }
            let v = mul_wrapping(t.scalar, self.scalar);
            accumulate(&mut acc, t.ket, t.bra, n, v);
            proof {
                assert forall|k: int, col: int|
                    #[trigger] slot_coeff(acc@, k, col) == wrap64(
                        s * (slot_coeff(a, k, col) + slot_coeff(b.take(j + 1), k, col)),
                    ) by {
                    let x = slot_coeff(a, k, col) + slot_coeff(b.take(j as int), k, col);
                    let d = if in_slot(t, k, col) { t.scalar as int } else { 0 };
                    assert(slot_coeff(b.take(j + 1), k, col) == slot_coeff(b.take(j as int), k, col) + d);
                    lemma_step(s, x, d, t.scalar as int, in_slot(t, k, col));
                }
            }
            j = j + 1;
        }
        proof {
            assert(b.take(b.len() as int) =~= b);
        }
        let ones = simplify(&acc);
        proof {
            assert forall|k: int, col: int|
                #[trigger] slot_coeff(ones@, k, col) == sum_coeff(s, a, b, k, col) by {
                lemma_wrap_fits(sum_coeff(s, a, b, k, col));
            }
            assert forall|i: int| 0 <= i < ones.len() implies #[trigger] ones@[i].n == n by {
                assert(acc@.contains(ones@[i]));
            }
            assert forall|i: int| 0 <= i < ones.len() implies sum_coeff(
                s,
                a,
                b,
                #[trigger] ones@[i].ket as int,
                ones@[i].bra as int,
            ) != 0 by {
                lemma_slot_at(ones@, i);
            }
        }
        Ok(Operator { scalar: 1, ones })
    }
}

/// Entry `(k, col)` of `s · (a + b)`.
pub open spec fn sum_coeff(s: int, a: Seq<KetBra>, b: Seq<KetBra>, k: int, col: int) -> int {
    s * (slot_coeff(a, k, col) + slot_coeff(b, k, col))
}

/// One step of a sum scaled by `s`: adding `s * ts` (wrapped) to the wrapped
/// `s * x` gives the wrapped `s * (x + d)`, where `d` is `ts` or zero.
proof fn lemma_step(s: int, x: int, d: int, ts: int, hit: bool)
    requires
        d == if hit { ts } else { 0 },
    ensures
        hit ==> wrap64(wrap64(s * x) + wrap64(ts * s)) == wrap64(s * (x + d)),
        !hit ==> wrap64(s * x) == wrap64(s * (x + d)),
{
    lemma_mul_is_distributive_add(s, x, d);
    lemma_mul_is_commutative(ts, s);
    lemma_wrap_add(s * x, ts * s);
    lemma_wrap_add(ts * s, wrap64(s * x));
    lemma_wrap_add(ts * s, s * x);
}

/// The state `scalar · Σ superpositions`.
#[derive(Clone, Debug)]
pub struct State {
    pub scalar: i64,
    pub superpositions: Vec<Ket>,
}

/// Component `k` of the vector that the terms denote.
pub open spec fn ket_coeff(kets: Seq<Ket>, k: int) -> int
    decreases kets.len(),
{
    if kets.len() == 0 {
        0
    } else {
        ket_coeff(kets.drop_last(), k) + if kets.last().ket == k {
            kets.last().scalar as int
        } else {
            0
        }
    }
}

/// One term per basis vector and no zero coefficient.
pub open spec fn simplified_kets(kets: Seq<Ket>) -> bool {
    &&& forall|i: int, j: int|
        0 <= i < kets.len() && 0 <= j < kets.len() && i != j ==> #[trigger] kets[i].ket
            != #[trigger] kets[j].ket
    &&& forall|i: int| 0 <= i < kets.len() ==> #[trigger] kets[i].scalar != 0
}

/// The terms of the operator and of the state are all tagged with one qubit count.
pub open spec fn state_qubits_agree(a: Seq<KetBra>, s: Seq<Ket>) -> bool {
    &&& qubits_agree(a)
    &&& forall|i: int, j: int|
        0 <= i < s.len() && 0 <= j < s.len() ==> #[trigger] s[i].n == #[trigger] s[j].n
    &&& forall|i: int, j: int|
        0 <= i < a.len() && 0 <= j < s.len() ==> #[trigger] a[i].n == #[trigger] s[j].n
}

/// Component `k` of the image of the state `s` under the matrix of `a`.
pub open spec fn apply_coeff(a: Seq<KetBra>, s: Seq<Ket>, k: int) -> int
    decreases s.len(),
{
    if s.len() == 0 {
        0
    } else {
        apply_coeff(a, s.drop_last(), k) + slot_coeff(a, k, s.last().ket as int)
            * s.last().scalar
    }
}

fn state_qubits_match(a: &Vec<KetBra>, s: &Vec<Ket>) -> (r: bool)
    ensures
        r == state_qubits_agree(a@, s@),
{
    let none: Vec<KetBra> = Vec::new();
    let own = qubits_match(a, &none);
    proof {
        assert(a@ + none@ =~= a@);
    }
    if !own {
        return false;
    }
    if s.len() == 0 {
        return true;
    }
    let n = s[0].n;
    let mut j: usize = 0;
    while j < s.len()
        invariant
            0 <= j <= s.len(),
            s.len() > 0,
            n == s@[0].n,
            forall|p: int| 0 <= p < j ==> #[trigger] s@[p].n == n,
        decreases s.len() - j,
    {
        if s[j].n != n {
            return false;
        }
        j = j + 1;
    }
    if a.len() > 0 && a[0].n != n {
        return false;
    }
    proof {
        assert forall|i: int, q: int| 0 <= i < a.len() && 0 <= q < s.len() implies #[trigger] a@[i].n
            == #[trigger] s@[q].n by {
            assert(a@[i].n == a@[0].n);
        }
    }
    true
}

/// The states whose terms are `ones` read with their bra indices left out.
fn kets_of(ones: &Vec<KetBra>) -> (r: Vec<Ket>)
    ensures
        r.len() == ones.len(),
        forall|i: int|
            0 <= i < r.len() ==> #[trigger] r@[i] == (Ket {
                scalar: ones@[i].scalar,
                ket: ones@[i].ket,
                n: ones@[i].n,
            }),
{
    let mut r: Vec<Ket> = Vec::new();
    let mut i: usize = 0;
    while i < ones.len()
        invariant
            0 <= i <= ones.len(),
            r.len() == i,
            forall|p: int|
                0 <= p < i ==> #[trigger] r@[p] == (Ket {
                    scalar: ones@[p].scalar,
                    ket: ones@[p].ket,
                    n: ones@[p].n,
                }),
        decreases ones.len() - i,
    {
        let t = ones[i];
        r.push(Ket { scalar: t.scalar, ket: t.ket, n: t.n });
        i = i + 1;
    }
    r
}

proof fn lemma_kets_coeff(ones: Seq<KetBra>, kets: Seq<Ket>, k: int)
    requires
        all_bras(ones, 0),
        kets.len() == ones.len(),
        forall|i: int|
            0 <= i < kets.len() ==> #[trigger] kets[i].ket == ones[i].ket && kets[i].scalar
                == ones[i].scalar,
    ensures
        ket_coeff(kets, k) == slot_coeff(ones, k, 0),
    decreases ones.len(),
{
    if ones.len() > 0 {
        let (o, q) = (ones.drop_last(), kets.drop_last());
        assert forall|i: int| 0 <= i < q.len() implies #[trigger] q[i].ket == o[i].ket && q[i].scalar
            == o[i].scalar by {
            assert(q[i] == kets[i] && o[i] == ones[i]);
        }
        assert(all_bras(o, 0)) by {
            assert forall|i: int| 0 <= i < o.len() implies #[trigger] o[i].bra == 0 by {
                assert(o[i] == ones[i]);
            }
        }
        lemma_kets_coeff(o, q, k);
        assert(kets[kets.len() - 1].ket == ones[ones.len() - 1].ket);
    }
}

impl Operator {
    /// The image of the state `rhs` under `self`, with the terms of each basis
    /// vector merged and zero components dropped.
    pub fn apply(self, rhs: State) -> (r: Result<State, AlgebraError>)
        requires
            fits_i64(self.scalar * rhs.scalar),
            forall|k: int| fits_i64(#[trigger] apply_coeff(self.ones@, rhs.superpositions@, k)),
        ensures
            r is Err <==> !state_qubits_agree(self.ones@, rhs.superpositions@),
            r is Err ==> r == Err::<State, AlgebraError>(AlgebraError::InvalidDimension),
            r matches Ok(st) ==> {
                &&& st.scalar == self.scalar * rhs.scalar
                &&& simplified_kets(st.superpositions@)
                &&& self.ones.len() > 0 ==> forall|i: int|
                    0 <= i < st.superpositions.len() ==> #[trigger] st.superpositions@[i].n
                        == self.ones@[0].n
                &&& forall|k: int|
                    #[trigger] ket_coeff(st.superpositions@, k) == apply_coeff(
                        self.ones@,
                        rhs.superpositions@,
                        k,
                    )
            },
    {
        if !state_qubits_match(&self.ones, &rhs.superpositions) {
            return Err(AlgebraError::InvalidDimension);
        }
        let ghost a = self.ones@;
        let ghost sv = rhs.superpositions@;
        let n = if self.ones.len() > 0 { self.ones[0].n } else { 0 };
        let mut acc: Vec<KetBra> = Vec::new();
        let mut j: usize = 0;
        while j < rhs.superpositions.len()
            invariant
                a == self.ones@,
                sv == rhs.superpositions@,
                0 <= j <= sv.len(),
                distinct_slots(acc@),
                all_qubits(acc@, n),
                all_bras(acc@, 0),
                forall|k: int|
                    #[trigger] slot_coeff(acc@, k, 0) == wrap64(apply_coeff(a, sv.take(j as int), k)),
            decreases sv.len() - j,
        {
            let p = rhs.superpositions[j];
            let mut i: usize = 0;
            assert forall|k: int|
                #[trigger] slot_coeff(acc@, k, 0) == wrap64(
                    apply_coeff(a, sv.take(j as int), k) + slot_coeff(a.take(0), k, p.ket as int)
                        * p.scalar,
                ) by {
                assert(slot_coeff(a.take(0), k, p.ket as int) == 0);
            }
            while i < self.ones.len()
                invariant
                    a == self.ones@,
                    sv == rhs.superpositions@,
                    0 <= j < sv.len(),
                    p == sv[j as int],
                    0 <= i <= a.len(),
                    distinct_slots(acc@),
                    all_qubits(acc@, n),
                    all_bras(acc@, 0),
                    forall|k: int|
                        #[trigger] slot_coeff(acc@, k, 0) == wrap64(
                            apply_coeff(a, sv.take(j as int), k) + slot_coeff(
                                a.take(i as int),
                                k,
                                p.ket as int,
                            ) * p.scalar,
                        ),
                decreases a.len() - i,
            {
                let t = self.ones[i];
                proof {
                    assert(a.take(i + 1).drop_last() =~= a.take(i as int));
                    assert(a.take(i + 1).last() == t);
                }
                if t.bra == p.ket {
                    let v = mul_wrapping(t.scalar, p.scalar);
                    accumulate(&mut acc, t.ket, 0, n, v);
                }
                proof {
                    assert forall|k: int|
                        #[trigger] slot_coeff(acc@, k, 0) == wrap64(
                            apply_coeff(a, sv.take(j as int), k) + slot_coeff(
                                a.take(i + 1),
                                k,
                                p.ket as int,
                            ) * p.scalar,
                        ) by {
                        let c = apply_coeff(a, sv.take(j as int), k);
                        let s0 = slot_coeff(a.take(i as int), k, p.ket as int);
                        let d = if in_slot(t, k, p.ket as int) { t.scalar as int } else { 0 };
                        assert(slot_coeff(a.take(i + 1), k, p.ket as int) == s0 + d);
                        lemma_mul_is_distributive_add_other_way(p.scalar as int, s0, d);
                        if t.bra == p.ket && k == t.ket {
                            lemma_wrap_add(c + s0 * p.scalar, t.scalar * p.scalar);
                            lemma_wrap_add(t.scalar * p.scalar, wrap64(c + s0 * p.scalar));
                            lemma_wrap_add(t.scalar * p.scalar, c + s0 * p.scalar);
                        }
                    }
                }
                i = i + 1;
            }
            proof {
                assert(a.take(a.len() as int) =~= a);
                assert(sv.take(j + 1).drop_last() =~= sv.take(j as int));
                assert(sv.take(j + 1).last() == p);
            }
            j = j + 1;
        }
        proof {
            assert(sv.take(sv.len() as int) =~= sv);
        }
        let ones = simplify(&acc);
        let kets = kets_of(&ones);
        proof {
            assert forall|i: int| 0 <= i < ones.len() implies #[trigger] ones@[i].n == n
                && ones@[i].bra == 0 by {
                assert(acc@.contains(ones@[i]));
            }
            assert forall|k: int|
                #[trigger] ket_coeff(kets@, k) == apply_coeff(a, sv, k) by {
                lemma_kets_coeff(ones@, kets@, k);
                lemma_wrap_fits(apply_coeff(a, sv, k));
            }
            assert forall|i: int, q: int|
                0 <= i < kets.len() && 0 <= q < kets.len() && i != q implies #[trigger] kets@[i].ket
                != #[trigger] kets@[q].ket by {
                assert(!in_slot(ones@[i], ones@[q].ket as int, ones@[q].bra as int));
            }
        }
        Ok(State { scalar: self.scalar * rhs.scalar, superpositions: kets })
    }
}

/// The Cartesian product of the terms, each pair combined by `tensor_spec`:
/// for each term of `a` in order, each term of `b` in order.
pub open spec fn tensor_terms(a: Seq<KetBra>, b: Seq<KetBra>) -> Seq<KetBra>
    decreases a.len(),
{
    if a.len() == 0 {
        Seq::empty()
    } else {
        tensor_terms(a.drop_last(), b) + b.map_values(|t: KetBra| a.last().tensor_spec(t))
    }
}

pub proof fn lemma_tensor_terms_len(a: Seq<KetBra>, b: Seq<KetBra>)
    ensures
        tensor_terms(a, b).len() == a.len() * b.len(),
    decreases a.len(),
{
    if a.len() > 0 {
        lemma_tensor_terms_len(a.drop_last(), b);
        lemma_mul_is_distributive_add_other_way(
            b.len() as int,
            a.len() - 1,
            1,
        );
    }
}

impl Operator {
    /// Tensor product: the overall scalars multiply and every pair of terms is
    /// combined, with no merging.
    pub fn tensor(&self, other: &Operator) -> (r: Operator)
        requires
            fits_i64(self.scalar * other.scalar),
            forall|i: int, j: int|
                0 <= i < self.ones.len() && 0 <= j < other.ones.len() ==> (
                #[trigger] self.ones@[i]).tensor_req(#[trigger] other.ones@[j]),
        ensures
            r.scalar == self.scalar * other.scalar,
            r.ones@ == tensor_terms(self.ones@, other.ones@),
            r.ones.len() == self.ones.len() * other.ones.len(),
    {
        let ghost a = self.ones@;
        let ghost b = other.ones@;
        let mut ones: Vec<KetBra> = Vec::new();
        let mut i: usize = 0;
        while i < self.ones.len()
            invariant
                a == self.ones@,
                b == other.ones@,
                0 <= i <= a.len(),
                ones@ == tensor_terms(a.take(i as int), b),
                forall|p: int, q: int|
                    0 <= p < a.len() && 0 <= q < b.len() ==> (#[trigger] a[p]).tensor_req(
                        #[trigger] b[q],
                    ),
            decreases a.len() - i,
        {
            let kb = &self.ones[i];
            let ghost base = ones@;
            let mut j: usize = 0;
            while j < other.ones.len()
                invariant
                    a == self.ones@,
                    b == other.ones@,
                    0 <= i < a.len(),
                    *kb == a[i as int],
                    0 <= j <= b.len(),
                    ones@ == base + b.take(j as int).map_values(|t: KetBra| kb.tensor_spec(t)),
                    forall|p: int, q: int|
                        0 <= p < a.len() && 0 <= q < b.len() ==> (#[trigger] a[p]).tensor_req(
                            #[trigger] b[q],
                        ),
                decreases b.len() - j,
            {
                let t = kb.tensor(&other.ones[j]);
                ones.push(t);
                proof {
                    assert(b.take(j + 1).map_values(|t: KetBra| kb.tensor_spec(t)) =~= b.take(
                        j as int,
                    ).map_values(|t: KetBra| kb.tensor_spec(t)).push(t));
                }
                j = j + 1;
            }
            proof {
                assert(b.take(b.len() as int) =~= b);
                assert(a.take(i + 1).drop_last() =~= a.take(i as int));
                assert(a.take(i + 1).last() == *kb);
            }
            i = i + 1;
        }
        proof {
            assert(a.take(a.len() as int) =~= a);
            lemma_tensor_terms_len(a, b);
        }
        Operator { scalar: self.scalar * other.scalar, ones }
    }

    /// The operator with its overall scalar multiplied by `rhs`; the terms are
    /// left as they are.
    pub fn scale(self, rhs: i64) -> (r: Operator)
        requires
            fits_i64(self.scalar * rhs),
        ensures
            r.scalar == self.scalar * rhs,
            r.ones@ == self.ones@,
    {
        Operator { scalar: self.scalar * rhs, ones: self.ones }
    }

    /// `|0⟩⟨0| + |1⟩⟨1|` tagged with `n` qubits, with overall scalar one. These
    /// are two terms whatever `n` is: the identity of one qubit, and a
    /// truncated one for more (see `full_identity`).
    pub fn identity(n: u32) -> (r: Operator)
        ensures
            r.scalar == 1,
            r.ones@ == seq![
                KetBra { scalar: 1, ket: 0, bra: 0, n },
                KetBra { scalar: 1, ket: 1, bra: 1, n },
            ],
    {
        let ones = vec![
            KetBra { scalar: 1, ket: 0, bra: 0, n },
            KetBra { scalar: 1, ket: 1, bra: 1, n },
        ];
        proof {
            assert(ones@ =~= seq![
                KetBra { scalar: 1, ket: 0, bra: 0, n },
                KetBra { scalar: 1, ket: 1, bra: 1, n },
            ]);
        }
        Operator { scalar: 1, ones }
    }

    /// The identity of the `n`-qubit space: `|k⟩⟨k|` for every `k < 2^n`, in
    /// increasing order, with overall scalar one.
    pub fn full_identity(n: u32) -> (r: Operator)
        requires
            n <= 32,
        ensures
            r.scalar == 1,
            r.ones.len() == pow2(n as nat),
            forall|k: int|
                0 <= k < r.ones.len() ==> #[trigger] r.ones@[k] == (KetBra {
                    scalar: 1,
                    ket: k as u32,
                    bra: k as u32,
                    n,
                }),
    {
        let size = pow2_u64(n);
        proof {
            lemma_u32_bound(n);
        }
        let mut ones: Vec<KetBra> = Vec::new();
        let mut k: u64 = 0;
        while k < size
            invariant
                size == pow2(n as nat) <= 0x1_0000_0000,
                0 <= k <= size,
                ones.len() == k,
                forall|p: int|
                    0 <= p < k ==> #[trigger] ones@[p] == (KetBra {
                        scalar: 1,
                        ket: p as u32,
                        bra: p as u32,
                        n,
                    }),
            decreases size - k,
        {
            ones.push(KetBra { scalar: 1, ket: k as u32, bra: k as u32, n });
            k = k + 1;
        }
        Operator { scalar: 1, ones }
    }
}

/// The terms written one after another, separated by ` + `.
pub open spec fn join_ketbras(ones: Seq<KetBra>) -> Seq<char>
    decreases ones.len(),
{
    if ones.len() == 0 {
        Seq::empty()
    } else if ones.len() == 1 {
        ketbra_text(ones[0])
    } else {
        join_ketbras(ones.drop_last()) + " + "@ + ketbra_text(ones.last())
    }
}

/// The terms written one after another, separated by ` + `.
pub open spec fn join_kets(kets: Seq<Ket>) -> Seq<char>
    decreases kets.len(),
{
    if kets.len() == 0 {
        Seq::empty()
    } else if kets.len() == 1 {
        ket_text(kets[0])
    } else {
        join_kets(kets.drop_last()) + " + "@ + ket_text(kets.last())
    }
}

/// A sum of terms under an overall scalar: the scalar and parentheses are
/// written only when the scalar is not one.
pub open spec fn scaled_text(scalar: i64, body: Seq<char>) -> Seq<char> {
    if scalar == 1 {
        body
    } else {
        decimal(scalar as int) + "("@ + body + ")"@
    }
}

impl Operator {
    /// The operator in bra-ket notation.
    pub fn to_text(&self) -> (r: String)
        requires
            self.ones.len() > 0,
        ensures
            r@ == scaled_text(self.scalar, join_ketbras(self.ones@)),
    {
        let mut out = String::new();
        if self.scalar != 1 {
            push_decimal(&mut out, self.scalar);
            out.append("(");
        }
        let ghost head = out@;
        self.ones[0].push_text(&mut out);
        assert(self.ones@.take(1).drop_last() =~= Seq::<KetBra>::empty());
        let mut i: usize = 1;
        while i < self.ones.len()
            invariant
                1 <= i <= self.ones.len(),
                out@ == head + join_ketbras(self.ones@.take(i as int)),
            decreases self.ones.len() - i,
        {
            out.append(" + ");
            self.ones[i].push_text(&mut out);
            proof {
                assert(self.ones@.take(i + 1).drop_last() =~= self.ones@.take(i as int));
            }
            assert(out@ =~= head + join_ketbras(self.ones@.take(i + 1)));
            i = i + 1;
        }
        assert(self.ones@.take(self.ones.len() as int) =~= self.ones@);
        if self.scalar != 1 {
            out.append(")");
        }
        assert(out@ =~= scaled_text(self.scalar, join_ketbras(self.ones@)));
        out
    }
}

impl State {
    /// The state in bra-ket notation.
    pub fn to_text(&self) -> (r: String)
        requires
            self.superpositions.len() > 0,
        ensures
            r@ == scaled_text(self.scalar, join_kets(self.superpositions@)),
    {
        let mut out = String::new();
        if self.scalar != 1 {
            push_decimal(&mut out, self.scalar);
            out.append("(");
        }
        let ghost head = out@;
        let ghost v = self.superpositions@;
        self.superpositions[0].push_text(&mut out);
        assert(v.take(1).drop_last() =~= Seq::<Ket>::empty());
        let mut i: usize = 1;
        while i < self.superpositions.len()
            invariant
                v == self.superpositions@,
                1 <= i <= v.len(),
                out@ == head + join_kets(v.take(i as int)),
            decreases v.len() - i,
        {
            out.append(" + ");
            self.superpositions[i].push_text(&mut out);
            proof {
                assert(v.take(i + 1).drop_last() =~= v.take(i as int));
            }
            assert(out@ =~= head + join_kets(v.take(i + 1)));
            i = i + 1;
        }
        assert(v.take(v.len() as int) =~= v);
        if self.scalar != 1 {
            out.append(")");
        }
        assert(out@ =~= scaled_text(self.scalar, join_kets(v)));
        out
    }
}

/// Operators are equal when their overall scalars are equal and their term
/// lists are equal term by term, in order.
impl PartialEq for Operator {
    fn eq(&self, other: &Operator) -> (r: bool) {
        if self.scalar != other.scalar || self.ones.len() != other.ones.len() {
            return false;
        }
        let mut i: usize = 0;
        while i < self.ones.len()
            invariant
                self.ones.len() == other.ones.len(),
                0 <= i <= self.ones.len(),
                forall|p: int| 0 <= p < i ==> #[trigger] self.ones@[p] == other.ones@[p],
            decreases self.ones.len() - i,
        {
            if self.ones[i] != other.ones[i] {
                return false;
            }
            i = i + 1;
        }
        assert(self.ones@ =~= other.ones@);
        true
    }
}

impl vstd::std_specs::cmp::PartialEqSpecImpl for Operator {
    open spec fn obeys_eq_spec() -> bool {
        true
    }

    open spec fn eq_spec(&self, other: &Operator) -> bool {
        self.scalar == other.scalar && self.ones@ == other.ones@
    }
}

/// States are equal when their overall scalars are equal and their term
/// lists are equal term by term, in order.
impl PartialEq for State {
    fn eq(&self, other: &State) -> (r: bool) {
        if self.scalar != other.scalar || self.superpositions.len()
            != other.superpositions.len() {
            return false;
        }
        let mut i: usize = 0;
        while i < self.superpositions.len()
            invariant
                self.superpositions.len() == other.superpositions.len(),
                0 <= i <= self.superpositions.len(),
                forall|p: int|
                    0 <= p < i ==> #[trigger] self.superpositions@[p] == other.superpositions@[p],
            decreases self.superpositions.len() - i,
        {
            if self.superpositions[i] != other.superpositions[i] {
                return false;
            }
            i = i + 1;
        }
        assert(self.superpositions@ =~= other.superpositions@);
        true
    }
}

impl vstd::std_specs::cmp::PartialEqSpecImpl for State {
    open spec fn obeys_eq_spec() -> bool {
        true
    }

    open spec fn eq_spec(&self, other: &State) -> bool {
        self.scalar == other.scalar && self.superpositions@ == other.superpositions@
    }
}

} // verus!
