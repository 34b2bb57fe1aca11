use complex_calculator::{AlgebraError, Ket, KetBra, Operator, State};

fn k(ket: u32, n: u32) -> Ket {
    Ket { scalar: 1, ket, n }
}

fn kb(ket: u32, bra: u32, n: u32) -> KetBra {
    KetBra { scalar: 1, ket, bra, n }
}

fn kbs(scalar: i64, ket: u32, bra: u32, n: u32) -> KetBra {
    KetBra { scalar, ket, bra, n }
}

/// The terms of `op` as a sorted list, so that two results can be compared
/// whatever order their merge produced.
fn sorted_terms(op: &Operator) -> Vec<(u32, u32, u32, i64)> {
    let mut v: Vec<(u32, u32, u32, i64)> = op.ones.iter().map(|t| (t.ket, t.bra, t.n, t.scalar)).collect();
    v.sort();
    v
}

fn sorted_kets(st: &State) -> Vec<(u32, u32, i64)> {
    let mut v: Vec<(u32, u32, i64)> = st.superpositions.iter().map(|t| (t.ket, t.n, t.scalar)).collect();
    v.sort();
    v
}

#[test]
fn ket_bra_tensor() {
    let a = kb(0, 0, 1);
    let b = kb(0, 0, 1);
    let c = a.tensor(&b);

    assert_eq!(c, kb(0, 0, 2));

    let a = kb(0, 0, 2);
    let b = kb(0, 0, 1);
    let c = a.tensor(&b);

    assert_eq!(c, kb(0, 0, 3));

    let a = kb(0, 1, 1);
    let b = kb(0, 0, 1);
    let c = a.tensor(&b);

    assert_eq!(c, kb(0, 2, 2));

    let a = kb(0, 0, 1);
    let b = kb(0, 1, 1);
    let c = a.tensor(&b);

    assert_eq!(c, kb(0, 1, 2));

    let a = kb(0, 1, 1);
    let b = kb(0, 1, 1);

    assert_eq!(a.tensor(&b), kb(0, 3, 2));

    let a = kb(1, 0, 1);
    let b = kb(0, 0, 1);

    assert_eq!(a.tensor(&b), kb(2, 0, 2));

    let a = kb(0, 0, 1);
    let b = kb(1, 0, 1);

    assert_eq!(a.tensor(&b), kb(1, 0, 2));

    let a = kb(1, 0, 1);
    let b = kb(1, 0, 1);

    assert_eq!(a.tensor(&b), kb(3, 0, 2));

    let a = kb(1, 0, 1);
    let b = kb(0, 1, 1);

    assert_eq!(a.tensor(&b), kb(2, 1, 2));
}

#[test]
fn operator_tensor_product() {
    let b = Operator { scalar: 1, ones: vec![kb(1, 1, 1)] };
    let id = Operator::identity(1);

    let b0 = id.tensor(&b);

    println!("{}", b0.to_text());
    assert_eq!(b0, Operator { scalar: 1, ones: vec![kb(1, 1, 2), kb(3, 3, 2)] });
    assert_eq!(b0.to_text(), "|01⟩⟨01| + |11⟩⟨11|");
}

#[test]
fn operator_product() {
    let b = Operator { scalar: 1, ones: vec![kb(1, 1, 1)] };
    let id = Operator::identity(1);

    let b0 = id.tensor(&b);
    let b1 = b.tensor(&id);

    let b1b0 = b1.mul(b0).unwrap();

    println!("{}", b1b0.to_text());

    assert_eq!(b1b0, Operator { scalar: 1, ones: vec![kb(3, 3, 2)] });
}

#[test]
fn tensor_index_concatenates_bits() {
    // |0⟩⟨0| on one qubit with |1⟩⟨0| on one qubit: index 1 = binary 01.
    assert_eq!(kb(0, 0, 1).tensor(&kb(1, 0, 1)), kb(1, 0, 2));
    // |5⟩⟨5| on three qubits with |2⟩⟨2| on two qubits: 5 * 4 + 2 = 22.
    assert_eq!(kb(5, 5, 3).tensor(&kb(2, 2, 2)), kb(22, 22, 5));
    // Coefficients multiply.
    assert_eq!(kbs(3, 1, 0, 1).tensor(&kbs(-2, 0, 1, 1)), kbs(-6, 2, 1, 2));
    // The widest split: 32 qubits in all.
    assert_eq!(kb(1, 0, 1).tensor(&kb(u32::MAX >> 1, 0, 31)), kb(u32::MAX, 0, 32));
}

#[test]
fn operator_tensor_keeps_every_pair_in_order() {
    let a = Operator { scalar: 2, ones: vec![kb(0, 1, 1), kbs(-1, 1, 1, 1)] };
    let b = Operator { scalar: 3, ones: vec![kb(1, 0, 1), kb(0, 0, 1)] };
    let t = a.tensor(&b);
    assert_eq!(t.scalar, 6);
    assert_eq!(t.ones, vec![kb(1, 2, 2), kb(0, 2, 2), kbs(-1, 3, 2, 2), kbs(-1, 2, 2, 2)]);
}

/// The Hadamard gate scaled by the square root of two, so that its entries
/// are integers.
fn scaled_hadamard() -> Operator {
    Operator { scalar: 1, ones: vec![kb(0, 1, 1), kb(1, 0, 1), kb(0, 0, 1), kb(1, 1, 1).neg()] }
}

fn controlled_not() -> Operator {
    Operator { scalar: 1, ones: vec![kb(0, 0, 2), kb(1, 1, 2), kb(3, 2, 2), kb(2, 3, 2)] }
}

// Coefficients are exact integers, so the Hadamard gate is taken times the
// square root of two; each of the four Hadamard factors below then leaves a
// factor of that root in the result, which is four times the reversed
// controlled-not gate.
#[test]
fn ex_3_4_1() {
    let h = scaled_hadamard();
    let id = Operator::identity(1);

    let h0 = id.tensor(&h);
    let h1 = h.tensor(&id);
    println!("h0 = {}", h0.to_text());
    println!("h1 = {}", h1.to_text());
    let h0h1 = h0.mul(h1).unwrap();
    println!("h0h1 = {}", h0h1.to_text());
    assert_eq!(h0h1.ones.len(), 16);
    assert!(h0h1.ones.iter().all(|t| t.scalar == 1 || t.scalar == -1));

    let c01 = h0h1.clone().mul(controlled_not()).unwrap().mul(h0h1).unwrap();
    println!("h0h1c10h0h1 = {} = c01", c01.to_text());
    assert_eq!(c01.scalar, 1);
    assert_eq!(sorted_terms(&c01), vec![(0, 0, 2, 4), (1, 3, 2, 4), (2, 2, 2, 4), (3, 1, 2, 4)]);
}

// As above, the Hadamard gate `(x + z) / √2` is taken times the square root
// of two, which scales every image by that root.
#[test]
fn ex_3_5_1() {
    let x = Operator { scalar: 1, ones: vec![kb(0, 1, 1), kb(1, 0, 1)] };
    let x1 = x.tensor(&Operator::identity(1));
    let z = Operator { scalar: 1, ones: vec![kb(0, 0, 1), kb(1, 1, 1).neg()] };
    let z1 = z.tensor(&Operator::identity(1));
    println!("{}", x1.to_text());
    println!("{}", z1.to_text());

    let h = x.add(z).unwrap();
    println!("{}", h.to_text());
    assert_eq!(sorted_terms(&h), vec![(0, 0, 1, 1), (0, 1, 1, 1), (1, 0, 1, 1), (1, 1, 1, -1)]);

    let h1 = x1.add(z1).unwrap();
    println!("{}", h1.to_text());
    let op = controlled_not().mul(h1).unwrap();
    println!("{}", op.to_text());

    let expected = [
        vec![(0, 2, 1), (3, 2, 1)],
        vec![(1, 2, 1), (2, 2, 1)],
        vec![(0, 2, 1), (3, 2, -1)],
        vec![(1, 2, 1), (2, 2, -1)],
    ];
    for (i, want) in expected.iter().enumerate() {
        let inp = State { scalar: 1, superpositions: vec![k(i as u32, 2)] };
        let res = op.clone().apply(inp.clone()).unwrap();
        println!("{} -> {}", inp.to_text(), res.to_text());
        assert_eq!(&sorted_kets(&res), want);
    }
}

#[test]
fn cancelling_terms_leave_the_result() {
    let a = Operator { scalar: 1, ones: vec![kb(0, 0, 1), kb(0, 1, 1), kb(1, 1, 1)] };
    let b = Operator { scalar: 1, ones: vec![kb(0, 0, 1), kbs(-1, 1, 0, 1), kb(1, 1, 1)] };
    let r = a.mul(b).unwrap();
    assert_eq!(sorted_terms(&r), vec![(0, 1, 1, 1), (1, 0, 1, -1), (1, 1, 1, 1)]);

    let a = Operator { scalar: 1, ones: vec![kb(0, 0, 1), kb(0, 1, 1)] };
    let b = Operator { scalar: 1, ones: vec![kb(0, 0, 1), kbs(-1, 1, 0, 1)] };
    let r = a.mul(b).unwrap();
    assert!(r.ones.is_empty());

    let a = Operator { scalar: 1, ones: vec![kbs(2, 0, 1, 1)] };
    let b = Operator { scalar: 1, ones: vec![kbs(-2, 0, 1, 1), kb(1, 1, 1)] };
    let r = a.add(b).unwrap();
    assert_eq!(r.ones, vec![kb(1, 1, 1)]);
}

#[test]
fn left_scalar_scales_both_operands_of_a_sum() {
    let a = Operator { scalar: 3, ones: vec![kb(0, 0, 1)] };
    let b = Operator { scalar: 1, ones: vec![kbs(2, 1, 1, 1), kbs(5, 0, 0, 1)] };
    let r = a.add(b).unwrap();
    assert_eq!(r.scalar, 1);
    assert_eq!(sorted_terms(&r), vec![(0, 0, 1, 18), (1, 1, 1, 6)]);

    // The right operand's scalar is not used.
    let a = Operator { scalar: 1, ones: vec![kb(0, 0, 1)] };
    let b = Operator { scalar: 7, ones: vec![kb(1, 1, 1)] };
    let r = a.add(b).unwrap();
    assert_eq!(sorted_terms(&r), vec![(0, 0, 1, 1), (1, 1, 1, 1)]);
}

#[test]
fn composition_multiplies_overall_scalars() {
    let a = Operator { scalar: 2, ones: vec![kbs(3, 0, 1, 1)] };
    let b = Operator { scalar: -5, ones: vec![kbs(4, 1, 1, 1)] };
    let r = a.mul(b).unwrap();
    assert_eq!(r, Operator { scalar: -10, ones: vec![kbs(12, 0, 1, 1)] });
}

#[test]
fn sums_that_pass_through_overflow_are_exact() {
    let big = i64::MAX;
    let a = Operator { scalar: 1, ones: vec![kbs(big, 0, 0, 1), kbs(big, 0, 0, 1), kbs(-big, 0, 0, 1)] };
    let b = Operator { scalar: 1, ones: vec![kb(0, 0, 1)] };
    let r = a.clone().mul(b.clone()).unwrap();
    assert_eq!(r.ones, vec![kbs(big, 0, 0, 1)]);
    let r = a.add(Operator { scalar: 1, ones: vec![kbs(-1, 0, 0, 1)] }).unwrap();
    assert_eq!(r.ones, vec![kbs(big - 1, 0, 0, 1)]);
}

#[test]
fn mismatched_qubit_counts_are_rejected() {
    let a = Operator { scalar: 1, ones: vec![kb(0, 0, 1)] };
    let b = Operator { scalar: 1, ones: vec![kb(0, 0, 2)] };
    assert_eq!(a.clone().mul(b.clone()), Err(AlgebraError::InvalidDimension));
    assert_eq!(a.clone().add(b), Err(AlgebraError::InvalidDimension));
    let s = State { scalar: 1, superpositions: vec![k(0, 2)] };
    assert_eq!(a.apply(s), Err(AlgebraError::InvalidDimension));
    let mixed = Operator { scalar: 1, ones: vec![kb(0, 0, 1), kb(0, 0, 2)] };
    let one = Operator { scalar: 1, ones: vec![kb(0, 0, 1)] };
    assert_eq!(mixed.mul(one), Err(AlgebraError::InvalidDimension));
}

#[test]
fn apply_multiplies_scalars_and_merges() {
    let op = Operator { scalar: 2, ones: vec![kb(0, 0, 1), kb(0, 1, 1), kbs(3, 1, 1, 1)] };
    let st = State { scalar: 5, superpositions: vec![k(0, 1), Ket { scalar: -1, ket: 1, n: 1 }] };
    let r = op.apply(st).unwrap();
    assert_eq!(r.scalar, 10);
    assert_eq!(sorted_kets(&r), vec![(1, 1, -3)]);
}

#[test]
fn scale_and_neg_touch_only_the_scalars() {
    let op = Operator { scalar: 2, ones: vec![kbs(3, 0, 1, 1)] };
    let r = op.scale(-4);
    assert_eq!(r, Operator { scalar: -8, ones: vec![kbs(3, 0, 1, 1)] });
    assert_eq!(kbs(3, 1, 0, 2).neg(), kbs(-3, 1, 0, 2));
}

#[test]
fn identities() {
    assert_eq!(Operator::identity(3), Operator { scalar: 1, ones: vec![kb(0, 0, 3), kb(1, 1, 3)] });
    let full = Operator::full_identity(2);
    assert_eq!(full, Operator { scalar: 1, ones: vec![kb(0, 0, 2), kb(1, 1, 2), kb(2, 2, 2), kb(3, 3, 2)] });
    assert_eq!(Operator::full_identity(0).ones, vec![kb(0, 0, 0)]);
}

#[test]
fn rendering() {
    assert_eq!(kb(2, 1, 2).to_text(), "|10⟩⟨01|");
    assert_eq!(kbs(-3, 0, 3, 3).to_text(), "-3|000⟩⟨011|");
    assert_eq!(kb(5, 0, 1).to_text(), "|101⟩⟨0|");
    assert_eq!(kb(0, 0, 0).to_text(), "|0⟩⟨0|");
    let op = Operator { scalar: 2, ones: vec![kb(0, 0, 1), kb(1, 1, 1)] };
    assert_eq!(op.to_text(), "2(|0⟩⟨0| + |1⟩⟨1|)");
    let st = State { scalar: 1, superpositions: vec![k(0, 2), Ket { scalar: -1, ket: 3, n: 2 }] };
    assert_eq!(st.to_text(), "|00⟩ + -1|11⟩");
    let st = State { scalar: -1, superpositions: vec![Ket { scalar: 4, ket: 1, n: 3 }] };
    assert_eq!(st.to_text(), "-1(4|001⟩)");
    assert_eq!(k(6, 3).to_text(), "|110⟩");
}
