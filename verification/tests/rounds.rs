use ark_ff::PrimeField;
use ark_poly::EvaluationDomain;
use plonk_prover::field::Scalar;
use plonk_prover::index::{Column, ConstraintSystem, Gate, ProofError};
use plonk_prover::linearization::{divide, RandomOracles};
use plonk_prover::poly::{evaluate, interpolate};
use plonk_prover::permutation::wire_factor;

fn s(x: u64) -> Scalar {
    Scalar::from_u64(x)
}

fn sv(xs: &[u64]) -> Vec<Scalar> {
    xs.iter().map(|x| Scalar::from_u64(*x)).collect()
}

fn generator(n: usize) -> Scalar {
    let g = ark_poly::Radix2EvaluationDomain::<ark_bn254::Fr>::new(n).unwrap().group_gen;
    let b = g.into_bigint().0;
    Scalar { limbs: b }
}

/// A circuit of `n` rows whose wires read the witness column by column, with
/// the identity permutation and every selector zero on every row.
fn blank_circuit(n: usize, public: usize) -> ConstraintSystem {
    let w = generator(n);
    let sid: Vec<Scalar> = (0..n as u64).map(|i| w.power(i)).collect();
    let r = s(5);
    let o = s(25);
    let sigmal1 = sid.clone();
    let sigmal2: Vec<Scalar> = sid.iter().map(|x| r.times(*x)).collect();
    let sigmal3: Vec<Scalar> = sid.iter().map(|x| o.times(*x)).collect();
    let mut cs = ConstraintSystem {
        n,
        public,
        gates: (0..n).map(|j| Gate { l: j, r: n + j, o: 2 * n + j }).collect(),
        sigmam1: vec![],
        sigmam2: vec![],
        sigmam3: vec![],
        sigmal1,
        sigmal2,
        sigmal3,
        sid,
        r,
        o,
        qm: vec![],
        ql: vec![],
        qr: vec![],
        qo: vec![],
        qc: vec![],
        group_gen: w,
    };
    finish(&mut cs);
    cs
}

fn finish(cs: &mut ConstraintSystem) {
    cs.sigmam1 = interpolate(&cs.sigmal1, cs.n);
    cs.sigmam2 = interpolate(&cs.sigmal2, cs.n);
    cs.sigmam3 = interpolate(&cs.sigmal3, cs.n);
}

/// Every gate is a no-op; the left wire of row 0 and the output wire of
/// row 3 are tied together.
fn permutation_only() -> ConstraintSystem {
    let mut cs = blank_circuit(4, 0);
    let left0 = cs.sigmal1[0];
    cs.sigmal1[0] = cs.sigmal3[3];
    cs.sigmal3[3] = left0;
    finish(&mut cs);
    cs
}

/// Rows 0 and 1 expose the public inputs; row 2 asserts `l * r = o`.
fn single_multiplication() -> ConstraintSystem {
    let mut cs = blank_circuit(8, 2);
    cs.ql = interpolate(&sv(&[1, 1, 0, 0, 0, 0, 0, 0]), 8);
    cs.qm = interpolate(&sv(&[0, 0, 1, 0, 0, 0, 0, 0]), 8);
    cs.qo = interpolate(&vec![s(0), s(0), s(1).negated(), s(0), s(0), s(0), s(0), s(0)], 8);
    cs
}

/// Row 0 exposes the public input; the other rows assert `l - r = 0`; each
/// left wire is tied to the right wire of its row.
fn identity_circuit() -> ConstraintSystem {
    let mut cs = blank_circuit(4, 1);
    let l = cs.sigmal1.clone();
    cs.sigmal1 = cs.sigmal2.clone();
    cs.sigmal2 = l;
    cs.ql = interpolate(&sv(&[1, 1, 1, 1]), 4);
    cs.qr = interpolate(&vec![s(0), s(1).negated(), s(1).negated(), s(1).negated()], 4);
    finish(&mut cs);
    cs
}

fn challenges() -> RandomOracles {
    RandomOracles { beta: s(1234567), gamma: s(7654321), alpha: s(424242), zeta: s(987654321), v: s(5) }
}

/// Runs the rounds in order with fixed challenges, and checks at a point off
/// the domain that the quotient times the vanishing polynomial is the
/// constraint sum, and that the chunks recombine to the quotient.
fn run_rounds(cs: &ConstraintSystem, witness: &Vec<Scalar>) -> Result<(), ProofError> {
    let c = challenges();
    let w = cs.encode_witness(witness)?;
    assert_eq!(w.public, witness[..cs.public].to_vec());
    let z = cs.permutation_polynomial(witness, c.beta, c.gamma)?;
    assert_eq!(evaluate(&z, s(1)), s(1));
    let chunks = cs.quotient_chunks(&w, &z, c.beta, c.gamma, c.alpha)?;
    assert!(chunks.low.len() <= cs.n && chunks.mid.len() <= cs.n && chunks.high.len() <= cs.n + 6);
    let out = cs.evaluate_and_linearize(&w, &z, &chunks, &c);

    let x = c.zeta;
    let l = out.evals.l;
    let r = out.evals.r;
    let o = out.evals.o;
    assert_eq!(l, evaluate(&w.l, x));
    assert_eq!(out.evals.f, evaluate(&out.f, x));
    let zx = evaluate(&z, x);
    let zwx = out.evals.z;
    assert_eq!(zwx, evaluate(&z, x.times(cs.group_gen)));
    let generic = evaluate(&cs.qm, x).times(l).times(r)
        .plus(evaluate(&cs.ql, x).times(l))
        .plus(evaluate(&cs.qr, x).times(r))
        .plus(evaluate(&cs.qo, x).times(o))
        .plus(evaluate(&cs.qc, x))
        .plus(evaluate(&w.p, x));
    let a = wire_factor(l, x, c.beta, c.gamma)
        .times(wire_factor(r, cs.r.times(x), c.beta, c.gamma))
        .times(wire_factor(o, cs.o.times(x), c.beta, c.gamma))
        .times(zx);
    let b = wire_factor(l, out.evals.sigma1, c.beta, c.gamma)
        .times(wire_factor(r, out.evals.sigma2, c.beta, c.gamma))
        .times(wire_factor(o, evaluate(&cs.sigmam3, x), c.beta, c.gamma))
        .times(zwx);
    let vanishing = x.power(cs.n as u64).minus(s(1));
    let boundary = divide(zx.minus(s(1)), x.minus(s(1)));
    let alpha2 = c.alpha.times(c.alpha);
    let t = evaluate(&out.t, x);
    let mut whole = chunks.low.clone();
    whole.extend(chunks.mid.iter());
    whole.extend(chunks.high.iter());
    assert_eq!(t, evaluate(&whole, x));
    let lhs = t.times(vanishing);
    let rhs = generic.plus(c.alpha.times(a.minus(b))).plus(alpha2.times(boundary).times(vanishing));
    assert_eq!(lhs, rhs);
    Ok(())
}

#[test]
fn identity_circuit_is_accepted() {
    let cs = identity_circuit();
    let witness = sv(&[7, 7, 7, 7, 7, 7, 7, 7, 0, 0, 0, 0]);
    assert_eq!(run_rounds(&cs, &witness), Ok(()));
}

#[test]
fn identity_circuit_with_unequal_wires_is_rejected() {
    let cs = identity_circuit();
    let witness = sv(&[7, 7, 7, 7, 7, 7, 8, 7, 0, 0, 0, 0]);
    assert_eq!(run_rounds(&cs, &witness), Err(ProofError::ProofCreation));
}

#[test]
fn single_multiplication_is_accepted() {
    let cs = single_multiplication();
    let mut witness = sv(&[0; 24]);
    witness[0] = s(3);
    witness[1] = s(5);
    witness[2] = s(3);
    witness[8 + 2] = s(5);
    witness[16 + 2] = s(15);
    assert_eq!(run_rounds(&cs, &witness), Ok(()));
}

#[test]
fn single_multiplication_with_wrong_output_does_not_divide() {
    let cs = single_multiplication();
    let mut witness = sv(&[0; 24]);
    witness[0] = s(3);
    witness[1] = s(5);
    witness[2] = s(3);
    witness[8 + 2] = s(5);
    witness[16 + 2] = s(16);
    assert_eq!(run_rounds(&cs, &witness), Err(ProofError::PolyDivision));
}

#[test]
fn permutation_only_with_the_copy_respected() {
    let cs = permutation_only();
    let witness = sv(&[9, 1, 2, 3, 4, 5, 6, 7, 8, 10, 11, 9]);
    assert_eq!(run_rounds(&cs, &witness), Ok(()));
}

#[test]
fn permutation_only_with_the_copy_violated() {
    let cs = permutation_only();
    let witness = sv(&[9, 1, 2, 3, 4, 5, 6, 7, 8, 10, 11, 12]);
    assert_eq!(run_rounds(&cs, &witness), Err(ProofError::ProofCreation));
    let c = challenges();
    assert_eq!(
        cs.masked_permutation_polynomial(&witness, c.beta, c.gamma),
        Err(ProofError::ProofCreation)
    );
}

#[test]
fn wrong_witness_length() {
    let cs = permutation_only();
    let witness = sv(&[9, 1, 2, 3, 4, 5, 6, 7, 8, 10, 11]);
    assert!(matches!(cs.encode_witness(&witness), Err(ProofError::WitnessCsInconsistent)));
    let witness = sv(&[9, 1, 2, 3, 4, 5, 6, 7, 8, 10, 11, 9, 0]);
    assert!(matches!(cs.encode_witness(&witness), Err(ProofError::WitnessCsInconsistent)));
}

#[test]
fn grand_product_starts_at_one_and_follows_the_rows() {
    let cs = permutation_only();
    let witness = sv(&[9, 1, 2, 3, 4, 5, 6, 7, 8, 10, 11, 9]);
    let c = challenges();
    let z = cs.permutation_accumulator(&witness, c.beta, c.gamma).unwrap();
    assert_eq!(z.len(), 4);
    assert_eq!(z[0], s(1));
    let mut acc = s(1);
    for j in 0..4 {
        assert_eq!(z[j], acc);
        let num = cs.row_numerator(&witness, c.beta, c.gamma, j);
        let den = cs.row_denominator(&witness, c.beta, c.gamma, j);
        acc = divide(acc.times(num), den);
    }
    assert_eq!(acc, s(1));
    assert_ne!(z[1], s(1));
    assert_eq!(wire_factor(s(2), s(3), s(5), s(7)), s(24));
}

#[test]
fn wire_columns_follow_the_gates() {
    let mut cs = permutation_only();
    cs.gates[1] = Gate { l: 11, r: 0, o: 5 };
    let witness = sv(&[9, 1, 2, 3, 4, 5, 6, 7, 8, 10, 11, 9]);
    assert_eq!(cs.wire_values(&witness, Column::Left), sv(&[9, 9, 2, 3]));
    assert_eq!(cs.wire_values(&witness, Column::Right), sv(&[4, 9, 6, 7]));
    assert_eq!(cs.wire_values(&witness, Column::Output), sv(&[8, 5, 11, 9]));
    assert_eq!(cs.gates[1].wire_of(Column::Output), 5);
}

#[test]
fn public_polynomial_is_the_negated_prefix() {
    let cs = single_multiplication();
    let mut witness = sv(&[0; 24]);
    witness[0] = s(3);
    witness[1] = s(5);
    witness[2] = s(3);
    let public = cs.public_input(&witness);
    assert_eq!(public, sv(&[3, 5]));
    let p = cs.public_polynomial(&public);
    assert_eq!(evaluate(&p, s(1)), s(3).negated());
    assert_eq!(evaluate(&p, cs.group_gen), s(5).negated());
    assert_eq!(evaluate(&p, cs.group_gen.power(2)), s(0));
}

#[test]
fn wire_polynomials_agree_with_the_witness_on_the_domain() {
    let cs = permutation_only();
    let witness = sv(&[9, 1, 2, 3, 4, 5, 6, 7, 8, 10, 11, 9]);
    let a = cs.wire_polynomial(&witness, Column::Right);
    let b = cs.wire_polynomial(&witness, Column::Right);
    assert_ne!(a, b);
    assert_eq!(a.len(), 6);
    for i in 0..4u64 {
        let x = cs.group_gen.power(i);
        assert_eq!(evaluate(&a, x), witness[4 + i as usize]);
        assert_eq!(evaluate(&b, x), witness[4 + i as usize]);
    }
    let fixed = cs.wire_polynomial_with(&witness, Column::Left, &sv(&[1, 2]));
    assert_eq!(fixed, cs.wire_polynomial_with(&witness, Column::Left, &sv(&[1, 2])));
    assert_eq!(evaluate(&fixed, cs.group_gen), s(1));
}

#[test]
fn masked_grand_product_keeps_its_values_on_the_domain() {
    let cs = permutation_only();
    let witness = sv(&[9, 1, 2, 3, 4, 5, 6, 7, 8, 10, 11, 9]);
    let c = challenges();
    let acc = cs.permutation_accumulator(&witness, c.beta, c.gamma).unwrap();
    let z = cs.masked_permutation_polynomial(&witness, c.beta, c.gamma).unwrap();
    assert_eq!(z.len(), 7);
    for i in 0..4u64 {
        assert_eq!(evaluate(&z, cs.group_gen.power(i)), acc[i as usize]);
    }
}

#[test]
fn rounds_with_fixed_blinds_are_deterministic() {
    let cs = single_multiplication();
    let mut witness = sv(&[0; 24]);
    witness[0] = s(3);
    witness[1] = s(5);
    witness[2] = s(3);
    witness[8 + 2] = s(5);
    witness[16 + 2] = s(15);
    let c = challenges();
    let run = || {
        let l = cs.wire_polynomial_with(&witness, Column::Left, &sv(&[11, 12]));
        let r = cs.wire_polynomial_with(&witness, Column::Right, &sv(&[13, 14]));
        let o = cs.wire_polynomial_with(&witness, Column::Output, &sv(&[15, 16]));
        let public = cs.public_input(&witness);
        let p = cs.public_polynomial(&public);
        let z = cs.permutation_polynomial(&witness, c.beta, c.gamma).unwrap();
        let t = cs.quotient(&l, &r, &o, &z, &p, c.beta, c.gamma, c.alpha).unwrap();
        let e = cs.evaluate_wires(&l, &r, &o, &z, c.zeta);
        let f = cs.linearization(&z, &e, &c);
        (l, r, o, z, t, e, f)
    };
    assert_eq!(run(), run());
}

#[test]
fn circuits_are_validated() {
    assert!(permutation_only().validate());
    assert!(single_multiplication().validate());
    assert!(identity_circuit().validate());
    let mut cs = permutation_only();
    cs.gates[2].o = 12;
    assert!(!cs.validate());
    assert!(!cs.check_wires());
    let mut cs = permutation_only();
    cs.n = 3;
    assert!(!cs.validate());
    let mut cs = permutation_only();
    cs.group_gen = cs.group_gen.times(cs.group_gen);
    assert!(!cs.validate());
    let mut cs = permutation_only();
    cs.sid[0].limbs[3] = u64::MAX;
    assert!(!cs.validate());
    let mut cs = permutation_only();
    cs.public = 5;
    assert!(!cs.validate());
    let mut cs = permutation_only();
    cs.qm = sv(&[1, 2, 3, 4, 5]);
    assert!(!cs.validate());
}

#[test]
fn unchecked_inputs_are_turned_away() {
    let cs = permutation_only();
    let witness = sv(&[9, 1, 2, 3, 4, 5, 6, 7, 8, 10, 11, 9]);
    assert!(matches!(cs.try_encode_witness(&witness), Some(Ok(_))));
    let short = sv(&[9, 1, 2]);
    assert!(matches!(
        cs.try_encode_witness(&short),
        Some(Err(ProofError::WitnessCsInconsistent))
    ));
    let mut bad = witness.clone();
    bad[4].limbs[3] = u64::MAX;
    assert!(cs.try_encode_witness(&bad).is_none());
    let mut broken = permutation_only();
    broken.sigmal1.pop();
    assert!(broken.try_encode_witness(&witness).is_none());
}

#[test]
fn a_zero_denominator_makes_the_product_zero() {
    let cs = blank_circuit(4, 0);
    let witness = sv(&[1, 0, 3, 4, 5, 6, 7, 8, 9, 10, 11, 12]);
    assert_eq!(
        cs.permutation_accumulator(&witness, s(0), s(0)),
        Err(ProofError::ProofCreation)
    );
    let witness = sv(&[1, 2, 3, 4, 5, 6, 7, 8, 9, 10, 11, 12]);
    assert_eq!(cs.permutation_accumulator(&witness, s(0), s(0)), Ok(sv(&[1, 1, 1, 1])));
    let z = cs.permutation_accumulator(&witness, s(3), s(4)).unwrap();
    assert_eq!(z, sv(&[1, 1, 1, 1]));
}
