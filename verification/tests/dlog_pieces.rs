use ark_ff::PrimeField;
use ark_poly::EvaluationDomain;
use plonk_prover::dlog::{evaluate_chunks, opening_points, Contributions};
use plonk_prover::field::Scalar;
use plonk_prover::index::{ConstraintSystem, Gate, ProofError};
use plonk_prover::poly::{domain_generator, evaluate, interpolate, mul_by_vanishing_poly};
use plonk_prover::quotient::alpha_powers;

fn s(x: u64) -> Scalar {
    Scalar::from_u64(x)
}

fn sv(xs: &[u64]) -> Vec<Scalar> {
    xs.iter().map(|x| Scalar::from_u64(*x)).collect()
}

fn circuit(n: usize) -> ConstraintSystem {
    let w = domain_generator(n);
    let sid: Vec<Scalar> = (0..n as u64).map(|i| w.power(i)).collect();
    let r = s(5);
    let o = s(25);
    let sigmal2: Vec<Scalar> = sid.iter().map(|x| r.times(*x)).collect();
    let sigmal3: Vec<Scalar> = sid.iter().map(|x| o.times(*x)).collect();
    ConstraintSystem {
        n,
        public: 0,
        gates: (0..n).map(|j| Gate { l: j, r: n + j, o: 2 * n + j }).collect(),
        sigmam1: interpolate(&sid, n),
        sigmam2: interpolate(&sigmal2, n),
        sigmam3: interpolate(&sigmal3, n),
        sigmal1: sid.clone(),
        sigmal2,
        sigmal3,
        sid,
        r,
        o,
        qm: vec![],
        ql: vec![],
        qr: vec![],
        qo: vec![],
        qc: vec![],
        group_gen: w,
    }
}

fn nothing() -> Contributions {
    Contributions {
        gen4: vec![],
        pos4: vec![],
        eca4: vec![],
        mul4: vec![],
        emul4: vec![],
        pos8: vec![],
        eca8: vec![],
        mul8: vec![],
        emul8: vec![],
        perm: vec![],
        genp: vec![],
        posp: vec![],
    }
}

fn on_domain(p: &Vec<Scalar>, size: usize) -> Vec<Scalar> {
    let w = domain_generator(size);
    (0..size as u64).map(|i| evaluate(p, w.power(i))).collect()
}

#[test]
fn domain_generator_is_the_transform_s_own() {
    let g = ark_poly::Radix2EvaluationDomain::<ark_bn254::Fr>::new(8).unwrap().group_gen;
    assert_eq!(domain_generator(8), Scalar { limbs: g.into_bigint().0 });
    assert_eq!(domain_generator(1), s(1));
    assert_eq!(domain_generator(2), s(0).minus(s(1)));
    assert_eq!(interpolate(&sv(&[5]), 1), sv(&[5]));
    assert!(domain_generator(4).same(domain_generator(8).power(2)));
    assert!(!domain_generator(4).same(domain_generator(8)));
}

#[test]
fn chunks_are_evaluated_one_by_one() {
    let p = sv(&[1, 2, 3, 4, 5, 6, 7, 8, 9, 10]);
    let e = evaluate_chunks(&p, s(2), 4);
    assert_eq!(e, sv(&[49, 109, 29]));
    assert_eq!(evaluate(&e, s(2).power(4)), evaluate(&p, s(2)));
    assert_eq!(evaluate(&p, s(2)), s(9217));
    assert_eq!(evaluate_chunks(&p, s(2), 10), sv(&[9217]));
    assert_eq!(evaluate_chunks(&p, s(2), 100), sv(&[9217]));
    assert_eq!(evaluate_chunks(&p, s(1), 5), sv(&[15, 40]));
    assert_eq!(evaluate_chunks(&sv(&[]), s(2), 4), sv(&[]));
}

#[test]
fn opening_points_are_zeta_and_its_successor() {
    let w = domain_generator(4);
    assert_eq!(opening_points(s(3), w), vec![s(3), s(3).times(w)]);
}

#[test]
fn bounded_quotient_divides_the_summed_contributions() {
    let cs = circuit(4);
    let a = mul_by_vanishing_poly(&sv(&[2, 3]), 4);
    let b = mul_by_vanishing_poly(&sv(&[0, 0, 7]), 4);
    let c = mul_by_vanishing_poly(&sv(&[1]), 4);
    let mut parts = nothing();
    parts.gen4 = on_domain(&a, 16);
    parts.pos8 = on_domain(&b, 32);
    parts.perm = on_domain(&a, 32);
    parts.posp = c;
    let alphas = alpha_powers(s(3));
    let z = sv(&[1]);
    assert_eq!(cs.bounded_quotient(&parts, &z, &alphas, 6), Ok(sv(&[5, 6, 7, 0, 0, 0])));
    assert_eq!(cs.bounded_quotient(&parts, &z, &alphas, 2), Ok(sv(&[5, 6])));
    let z = vec![s(0), s(0), s(1)];
    assert_eq!(cs.bounded_quotient(&parts, &z, &alphas, 4), Ok(sv(&[14, 15, 7, 0])));
    let z = vec![s(0), s(0), s(2)];
    assert_eq!(cs.bounded_quotient(&parts, &z, &alphas, 4), Err(ProofError::PolyDivision));
    let z = vec![s(1), s(0).minus(s(1)), s(1)];
    assert_eq!(cs.bounded_quotient(&parts, &z, &alphas, 4), Ok(sv(&[5, 15, 7, 0])));
    parts.genp = sv(&[1]);
    assert_eq!(cs.bounded_quotient(&parts, &z, &alphas, 4), Err(ProofError::PolyDivision));
}

#[test]
fn chunked_evaluations_of_every_polynomial() {
    let cs = circuit(4);
    let l = sv(&[1, 2, 3, 4, 5, 6]);
    let r = sv(&[1, 1, 1, 1, 1]);
    let o = sv(&[]);
    let z = sv(&[7]);
    let t = sv(&[0, 0, 0, 0, 0, 0, 0, 0, 1]);
    let e = cs.evaluate_chunked(&l, &r, &o, &z, &t, s(2), 4);
    assert_eq!(e.l, sv(&[49, 17]));
    assert_eq!(e.r, sv(&[15, 1]));
    assert_eq!(e.o, sv(&[]));
    assert_eq!(e.z, sv(&[7]));
    assert_eq!(e.t, sv(&[0, 0, 1]));
    assert_eq!(e.sigma1, vec![evaluate(&cs.sigmam1, s(2))]);
    assert_eq!(e.sigma2, vec![evaluate(&cs.sigmam2, s(2))]);
    assert_eq!(e.f, sv(&[]));
}
