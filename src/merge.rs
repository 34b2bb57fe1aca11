//! Merging of operator terms that occupy the same basis slot `|ket⟩⟨bra|`.
//!
//! A list of terms denotes the matrix whose entry at a slot is the sum of the
//! coefficients of the terms in that slot. Merging keeps that matrix and leaves
//! one term per slot, with the zero entries dropped.
use crate::ket::KetBra;
use crate::modular::{add_wrapping, fits_i64, lemma_wrap_fits, wrap64};
use vstd::prelude::*;

verus! {

pub open spec fn in_slot(t: KetBra, k: int, b: int) -> bool {
    t.ket == k && t.bra == b
}

/// Entry `(k, b)` of the matrix that the terms denote.
pub open spec fn slot_coeff(ones: Seq<KetBra>, k: int, b: int) -> int
    decreases ones.len(),
{
    if ones.len() == 0 {
        0
    } else {
        slot_coeff(ones.drop_last(), k, b) + if in_slot(ones.last(), k, b) {
            ones.last().scalar as int
        } else {
            0
        }
    }
}

/// No two terms share a slot.
pub open spec fn distinct_slots(ones: Seq<KetBra>) -> bool {
    forall|i: int, j: int|
        0 <= i < ones.len() && 0 <= j < ones.len() && i != j ==> !in_slot(
            #[trigger] ones[i],
            ones[j].ket as int,
            #[trigger] ones[j].bra as int,
        )
}

/// One term per slot and no zero coefficient.
pub open spec fn simplified(ones: Seq<KetBra>) -> bool {
    &&& distinct_slots(ones)
    &&& forall|i: int| 0 <= i < ones.len() ==> #[trigger] ones[i].scalar != 0
}

/// Every term has `c` as its bra index.
pub open spec fn all_bras(ones: Seq<KetBra>, c: u32) -> bool {
    forall|i: int| 0 <= i < ones.len() ==> #[trigger] ones[i].bra == c
}

/// Every term is tagged with `n` qubits.
pub open spec fn all_qubits(ones: Seq<KetBra>, n: u32) -> bool {
    forall|i: int| 0 <= i < ones.len() ==> #[trigger] ones[i].n == n
}

pub proof fn lemma_slot_push(ones: Seq<KetBra>, t: KetBra)
    ensures
        forall|k: int, b: int|
            #[trigger] slot_coeff(ones.push(t), k, b) == slot_coeff(ones, k, b) + if in_slot(
                t,
                k,
                b,
            ) {
                t.scalar as int
            } else {
                0
            },
{
    assert(ones.push(t).drop_last() =~= ones);
}

pub proof fn lemma_slot_absent(ones: Seq<KetBra>, k: int, b: int)
    requires
        forall|i: int| 0 <= i < ones.len() ==> !in_slot(#[trigger] ones[i], k, b),
    ensures
        slot_coeff(ones, k, b) == 0,
    decreases ones.len(),
{
    if ones.len() > 0 {
        let rest = ones.drop_last();
        assert forall|i: int| 0 <= i < rest.len() implies !in_slot(#[trigger] rest[i], k, b) by {
            assert(rest[i] == ones[i]);
        }
        lemma_slot_absent(rest, k, b);
        assert(!in_slot(ones[ones.len() - 1], k, b));
    }
}

/// In a list without shared slots, the entry of a term's slot is its coefficient.
pub proof fn lemma_slot_at(ones: Seq<KetBra>, i: int)
    requires
        distinct_slots(ones),
        0 <= i < ones.len(),
    ensures
        slot_coeff(ones, ones[i].ket as int, ones[i].bra as int) == ones[i].scalar,
    decreases ones.len(),
{
    let rest = ones.drop_last();
    let last = ones.len() - 1;
    let k = ones[i].ket as int;
    let b = ones[i].bra as int;
    if i == last {
        assert forall|j: int| 0 <= j < rest.len() implies !in_slot(#[trigger] rest[j], k, b) by {
            assert(rest[j] == ones[j]);
        }
        lemma_slot_absent(rest, k, b);
    } else {
        assert(distinct_slots(rest)) by {
            assert forall|p: int, q: int|
                0 <= p < rest.len() && 0 <= q < rest.len() && p != q implies !in_slot(
                #[trigger] rest[p],
                rest[q].ket as int,
                #[trigger] rest[q].bra as int,
            ) by {
                assert(rest[p] == ones[p] && rest[q] == ones[q]);
            }
        }
        assert(rest[i] == ones[i]);
        lemma_slot_at(rest, i);
        assert(!in_slot(ones[last], k, b));
    }
}

/// Replacing a term by one in the same slot changes that slot's entry by the
/// difference of their coefficients and no other entry.
pub proof fn lemma_slot_update(ones: Seq<KetBra>, i: int, t: KetBra)
    requires
        0 <= i < ones.len(),
        t.ket == ones[i].ket,
        t.bra == ones[i].bra,
    ensures
        forall|k: int, b: int|
            #[trigger] slot_coeff(ones.update(i, t), k, b) == slot_coeff(ones, k, b) + if in_slot(
                t,
                k,
                b,
            ) {
                t.scalar - ones[i].scalar
            } else {
                0
            },
    decreases ones.len(),
{
    let last = ones.len() - 1;
    let u = ones.update(i, t);
    if i == last {
        assert(u.drop_last() =~= ones.drop_last());
    } else {
        lemma_slot_update(ones.drop_last(), i, t);
        assert(u.drop_last() =~= ones.drop_last().update(i, t));
    }
    assert forall|k: int, b: int|
        #[trigger] slot_coeff(u, k, b) == slot_coeff(ones, k, b) + if in_slot(t, k, b) {
            t.scalar - ones[i].scalar
        } else {
            0
        } by {
        assert(slot_coeff(u, k, b) == slot_coeff(u.drop_last(), k, b) + if in_slot(u.last(), k, b) {
            u.last().scalar as int
        } else {
            0
        });
    }
}

/// Adds `v`, modulo 2^64, to the entry of slot `(ket, bra)`.
pub fn accumulate(acc: &mut Vec<KetBra>, ket: u32, bra: u32, n: u32, v: i64)
    requires
        distinct_slots(old(acc)@),
        all_qubits(old(acc)@, n),
    ensures
        distinct_slots(final(acc)@),
        all_qubits(final(acc)@, n),
        all_bras(old(acc)@, bra) ==> all_bras(final(acc)@, bra),
        forall|k: int, b: int|
            #[trigger] slot_coeff(final(acc)@, k, b) == if k == ket && b == bra {
                wrap64(slot_coeff(old(acc)@, k, b) + v)
            } else {
                slot_coeff(old(acc)@, k, b)
            },
{
    let ghost before = acc@;
    let mut i: usize = 0;
    while i < acc.len()
        invariant
            acc@ == before,
            before == old(acc)@,
            distinct_slots(before),
            all_qubits(before, n),
            0 <= i <= acc.len(),
            forall|j: int| 0 <= j < i ==> !in_slot(#[trigger] acc@[j], ket as int, bra as int),
        decreases acc.len() - i,
    {
        if acc[i].ket == ket && acc[i].bra == bra {
            let old_term = acc[i];
            let t = KetBra { scalar: add_wrapping(old_term.scalar, v), ket, bra, n };
            proof {
                lemma_slot_at(before, i as int);
                lemma_slot_update(before, i as int, t);
                assert forall|p: int, q: int|
                    0 <= p < before.len() && 0 <= q < before.len() && p != q implies !in_slot(
                    #[trigger] before.update(i as int, t)[p],
                    before.update(i as int, t)[q].ket as int,
                    #[trigger] before.update(i as int, t)[q].bra as int,
                ) by {
                    assert(!in_slot(before[p], before[q].ket as int, before[q].bra as int));
                }
            }
            acc.set(i, t);
            proof {
                assert(acc@ == before.update(i as int, t));
                assert forall|k: int, b: int|
                    #[trigger] slot_coeff(acc@, k, b) == if k == ket && b == bra {
                        wrap64(slot_coeff(before, k, b) + v)
                    } else {
                        slot_coeff(before, k, b)
                    } by {
                    assert(slot_coeff(acc@, k, b) == slot_coeff(before, k, b) + if in_slot(t, k, b) {
                        t.scalar - old_term.scalar
                    } else {
                        0
                    });
                }
            }
            return;
        }
        i = i + 1;
    }
    let t = KetBra { scalar: v, ket, bra, n };
    proof {
        lemma_slot_absent(before, ket as int, bra as int);
        lemma_slot_push(before, t);
        lemma_wrap_fits(v as int);
    }
    acc.push(t);
}

/// The terms of `acc` whose coefficient is not zero, in their order.
pub fn simplify(acc: &Vec<KetBra>) -> (r: Vec<KetBra>)
    requires
        distinct_slots(acc@),
    ensures
        simplified(r@),
        forall|k: int, b: int| #[trigger] slot_coeff(r@, k, b) == slot_coeff(acc@, k, b),
        forall|m: int| 0 <= m < r.len() ==> acc@.contains(#[trigger] r@[m]),
{
    let mut out: Vec<KetBra> = Vec::new();
    let ghost mut src: Seq<int> = Seq::empty();
    let mut i: usize = 0;
    while i < acc.len()
        invariant
            0 <= i <= acc.len(),
            distinct_slots(acc@),
            simplified(out@),
            forall|k: int, b: int|
                #[trigger] slot_coeff(out@, k, b) == slot_coeff(acc@.take(i as int), k, b),
            src.len() == out.len(),
            forall|m: int|
                0 <= m < out.len() ==> 0 <= #[trigger] src[m] < i && out@[m] == acc@[src[m]],
        decreases acc.len() - i,
    {
        let t = acc[i];
        proof {
            assert(acc@.take(i + 1) =~= acc@.take(i as int).push(t));
            lemma_slot_push(acc@.take(i as int), t);
        }
        if t.scalar != 0 {
            proof {
                lemma_slot_push(out@, t);
                assert forall|m: int| 0 <= m < out.len() implies !in_slot(
                    #[trigger] out@[m],
                    t.ket as int,
                    t.bra as int,
                ) by {
                    let j = src[m];
                    assert(!in_slot(acc@[j], acc@[i as int].ket as int, acc@[i as int].bra as int));
                }
            }
            out.push(t);
            proof {
                src = src.push(i as int);
            }
        }
        i = i + 1;
    }
    proof {
        assert(acc@.take(acc.len() as int) =~= acc@);
        assert forall|m: int| 0 <= m < out.len() implies acc@.contains(#[trigger] out@[m]) by {
            let j = src[m];
            assert(out@[m] == acc@[j]);
        }
    }
    out
}

} // verus!
