use ark_ff::PrimeField;
use ark_poly::EvaluationDomain;
use plonk_prover::encoder::{check_witness_length, mask, random_blind};
use plonk_prover::field::Scalar;
use plonk_prover::index::{domain_size_ok, ProofError};
use plonk_prover::linearization::{combine_chunks, divide, ProofEvaluations, RandomOracles};
use plonk_prover::poly::{
    coeff_at, divide_by_linear_exact, divide_by_vanishing_exact, evaluate, interpolate, is_zero,
    mul_by_vanishing_poly, poly_add, poly_mul, poly_neg, poly_scale, poly_shift, poly_sub,
    require_exact,
};
use plonk_prover::prover::{transcript_schedule, TranscriptStep, Variant};
use plonk_prover::quotient::{
    alpha_powers, bound_quotient, constant, copy_range, linear, split_quotient,
};

fn s(x: u64) -> Scalar {
    Scalar::from_u64(x)
}

fn sv(xs: &[u64]) -> Vec<Scalar> {
    xs.iter().map(|x| Scalar::from_u64(*x)).collect()
}

fn from_fr(x: ark_bn254::Fr) -> Scalar {
    let b = x.into_bigint().0;
    Scalar { limbs: b }
}

fn minus_one() -> Scalar {
    Scalar {
        limbs: [0x43e1f593f0000000, 0x2833e84879b97091, 0xb85045b68181585d, 0x30644e72e131a029],
    }
}

fn generator(n: usize) -> Scalar {
    from_fr(ark_poly::Radix2EvaluationDomain::<ark_bn254::Fr>::new(n).unwrap().group_gen)
}

#[test]
fn scalar_constants() {
    assert_eq!(Scalar::zero(), Scalar { limbs: [0, 0, 0, 0] });
    assert_eq!(Scalar::one(), Scalar { limbs: [1, 0, 0, 0] });
    assert_eq!(s(77), Scalar { limbs: [77, 0, 0, 0] });
    assert!(Scalar::zero().is_zero());
    assert!(!Scalar::one().is_zero());
    assert!(Scalar::one().is_one());
    assert!(!s(2).is_one());
}

#[test]
fn canonical_form_is_below_the_modulus() {
    assert!(minus_one().is_canonical());
    let mut modulus = minus_one();
    modulus.limbs[0] += 1;
    assert!(!modulus.is_canonical());
    let above = Scalar { limbs: [0, 0, 0, 0x30644e72e131a02a] };
    assert!(!above.is_canonical());
    assert!(s(u64::MAX).is_canonical());
}

#[test]
fn field_addition_wraps_at_the_modulus() {
    assert_eq!(s(3).plus(s(5)), s(8));
    assert_eq!(minus_one().plus(s(1)), s(0));
    assert_eq!(minus_one().plus(s(3)), s(2));
    assert_eq!(s(u64::MAX).plus(s(1)), Scalar { limbs: [0, 1, 0, 0] });
}

#[test]
fn field_subtraction_wraps_at_zero() {
    assert_eq!(s(5).minus(s(3)), s(2));
    assert_eq!(s(0).minus(s(1)), minus_one());
    assert_eq!(s(7).negated().plus(s(7)), s(0));
    assert_eq!(s(0).negated(), s(0));
}

#[test]
fn field_multiplication() {
    assert_eq!(s(3).times(s(5)), s(15));
    assert_eq!(minus_one().times(minus_one()), s(1));
    assert_eq!(s(1 << 63).times(s(2)), Scalar { limbs: [0, 1, 0, 0] });
    assert_eq!(s(9).times(s(0)), s(0));
}

#[test]
fn field_inverse_and_division() {
    assert_eq!(s(0).inverse(), None);
    let half = s(2).inverse().unwrap();
    assert_eq!(half.times(s(2)), s(1));
    assert_ne!(half, s(2));
    assert_eq!(s(1).inverse(), Some(s(1)));
    assert_eq!(divide(s(15), s(5)), s(3));
    assert_eq!(divide(s(0), s(5)), s(0));
    assert_eq!(divide(s(1), s(2)), half);
}

#[test]
fn field_power() {
    assert_eq!(s(2).power(10), s(1024));
    assert_eq!(s(5).power(0), s(1));
    assert_eq!(s(0).power(0), s(1));
    assert_eq!(s(3).power(1), s(3));
    let w = generator(8);
    assert_eq!(w.power(8), s(1));
    assert_ne!(w.power(4), s(1));
}

#[test]
fn domain_sizes() {
    assert!(domain_size_ok(1));
    assert!(domain_size_ok(4));
    assert!(domain_size_ok(1 << 28));
    assert!(!domain_size_ok(0));
    assert!(!domain_size_ok(3));
    assert!(!domain_size_ok(1 << 29));
}

#[test]
fn witness_length_must_be_three_per_gate() {
    assert_eq!(check_witness_length(12, 4), Ok(()));
    assert_eq!(check_witness_length(11, 4), Err(ProofError::WitnessCsInconsistent));
    assert_eq!(check_witness_length(13, 4), Err(ProofError::WitnessCsInconsistent));
    assert_eq!(check_witness_length(0, 0), Ok(()));
    assert_eq!(check_witness_length(5, usize::MAX), Err(ProofError::WitnessCsInconsistent));
}

#[test]
fn coefficientwise_operations() {
    let a = sv(&[1, 2, 3]);
    let b = sv(&[10, 20]);
    assert_eq!(poly_add(&a, &b), sv(&[11, 22, 3]));
    assert_eq!(poly_sub(&a, &sv(&[1, 1])), sv(&[0, 1, 3]));
    assert_eq!(poly_sub(&b, &a), vec![s(9), s(18), s(3).negated()]);
    assert_eq!(poly_scale(&a, s(4)), sv(&[4, 8, 12]));
    assert_eq!(poly_neg(&sv(&[0, 1])), vec![s(0), minus_one()]);
    assert_eq!(poly_shift(&a, s(2)), sv(&[1, 4, 12]));
    assert_eq!(coeff_at(&a, 1), s(2));
    assert_eq!(coeff_at(&a, 3), s(0));
    assert!(is_zero(&sv(&[0, 0])));
    assert!(is_zero(&sv(&[])));
    assert!(!is_zero(&sv(&[0, 1])));
    assert_eq!(constant(s(6)), sv(&[6]));
    assert_eq!(linear(s(6), s(7)), sv(&[6, 7]));
}

#[test]
fn evaluation_by_horner() {
    assert_eq!(evaluate(&sv(&[1, 2, 3]), s(2)), s(17));
    assert_eq!(evaluate(&sv(&[]), s(2)), s(0));
    assert_eq!(evaluate(&sv(&[5]), s(0)), s(5));
    assert_eq!(evaluate(&sv(&[0, 0, 1]), s(3)), s(9));
}

#[test]
fn vanishing_multiple_has_shifted_and_negated_copies() {
    let m = mul_by_vanishing_poly(&sv(&[2, 3]), 4);
    assert_eq!(m, vec![s(2).negated(), s(3).negated(), s(0), s(0), s(2), s(3)]);
    assert_eq!(mul_by_vanishing_poly(&sv(&[]), 2), sv(&[0, 0]));
}

#[test]
fn product_is_the_convolution_without_trailing_zeros() {
    assert_eq!(poly_mul(&sv(&[1, 1]), &sv(&[1, 1])), sv(&[1, 2, 1]));
    assert_eq!(poly_mul(&sv(&[1, 2, 3]), &sv(&[4, 5])), sv(&[4, 13, 22, 15]));
    assert_eq!(poly_mul(&sv(&[1, 2, 0, 0]), &sv(&[3, 0])), sv(&[3, 6]));
    assert_eq!(poly_mul(&sv(&[0, 0]), &sv(&[3, 1])), sv(&[]));
    assert_eq!(poly_mul(&sv(&[]), &sv(&[3, 1])), sv(&[]));
}

#[test]
fn interpolation_takes_the_given_values_on_the_domain() {
    assert_eq!(interpolate(&sv(&[6, 6, 6, 6]), 4), sv(&[6]));
    let evals = sv(&[3, 1, 4, 1, 5, 9, 2, 6]);
    let p = interpolate(&evals, 8);
    assert!(p.len() <= 8);
    let w = generator(8);
    for i in 0..8u64 {
        assert_eq!(evaluate(&p, w.power(i)), evals[i as usize]);
    }
    let short = interpolate(&sv(&[7]), 4);
    let w4 = generator(4);
    assert_eq!(evaluate(&short, s(1)), s(7));
    assert_eq!(evaluate(&short, w4), s(0));
    assert_eq!(evaluate(&short, w4.power(3)), s(0));
}

#[test]
fn masking_changes_no_value_on_the_domain() {
    let p = interpolate(&sv(&[3, 1, 4, 1]), 4);
    let blind = sv(&[1234, 5678]);
    let m = mask(&p, &blind, 4);
    assert_eq!(m.len(), 6);
    assert_ne!(m[..4], p[..]);
    let w = generator(4);
    for i in 0..4u64 {
        assert_eq!(evaluate(&m, w.power(i)), evaluate(&p, w.power(i)));
    }
    assert_ne!(evaluate(&m, s(2)), evaluate(&p, s(2)));
}

#[test]
fn random_blinds_are_canonical() {
    let b = random_blind(5);
    assert_eq!(b.len(), 5);
    assert!(b.iter().all(|x| x.is_canonical()));
    assert_eq!(random_blind(0).len(), 0);
    assert_ne!(random_blind(2), random_blind(2));
}

#[test]
fn exact_division_by_x_minus_one() {
    let p = vec![minus_one(), s(0), s(1)];
    assert_eq!(divide_by_linear_exact(&p), Ok(sv(&[1, 1])));
    assert_eq!(divide_by_linear_exact(&sv(&[0, 0, 1])), Err(ProofError::PolyDivision));
    assert_eq!(divide_by_linear_exact(&sv(&[])), Ok(sv(&[])));
    assert_eq!(divide_by_linear_exact(&sv(&[1])), Err(ProofError::PolyDivision));
}

#[test]
fn exact_division_by_the_vanishing_polynomial() {
    let p = mul_by_vanishing_poly(&sv(&[2, 3, 5]), 4);
    assert_eq!(divide_by_vanishing_exact(&p, 4), Ok(sv(&[2, 3, 5])));
    let q = poly_add(&p, &sv(&[1]));
    assert_eq!(divide_by_vanishing_exact(&q, 4), Err(ProofError::PolyDivision));
    let long = mul_by_vanishing_poly(&sv(&[1, 2, 3, 4, 5, 6, 7, 8, 9, 10]), 4);
    assert_eq!(divide_by_vanishing_exact(&long, 4), Ok(sv(&[1, 2, 3, 4, 5, 6, 7, 8, 9, 10])));
    assert_eq!(divide_by_vanishing_exact(&sv(&[1, 2]), 4), Err(ProofError::PolyDivision));
    assert_eq!(divide_by_vanishing_exact(&sv(&[0, 0]), 4), Ok(sv(&[])));
}

#[test]
fn a_division_counts_only_without_remainder() {
    assert_eq!(require_exact(Some((sv(&[1, 2]), sv(&[])))), Ok(sv(&[1, 2])));
    assert_eq!(require_exact(Some((sv(&[1, 2]), sv(&[0, 0])))), Ok(sv(&[1, 2])));
    assert_eq!(require_exact(Some((sv(&[1, 2]), sv(&[0, 1])))), Err(ProofError::PolyDivision));
    assert_eq!(require_exact(None), Err(ProofError::PolyDivision));
}

#[test]
fn quotient_is_cut_at_n_and_2n() {
    let t = sv(&[1, 2, 3, 4, 5, 6, 7, 8, 9, 10]);
    let c = split_quotient(&t, 4);
    assert_eq!(c.low, sv(&[1, 2, 3, 4]));
    assert_eq!(c.mid, sv(&[5, 6, 7, 8]));
    assert_eq!(c.high, sv(&[9, 10]));
    let c = split_quotient(&sv(&[1, 2, 3, 4, 5, 6]), 4);
    assert_eq!(c.low, sv(&[1, 2, 3, 4]));
    assert_eq!(c.mid, sv(&[5, 6]));
    assert_eq!(c.high, sv(&[]));
    let c = split_quotient(&sv(&[1, 2, 3]), 4);
    assert_eq!(c.low, sv(&[1, 2, 3]));
    assert_eq!(c.mid, sv(&[]));
    assert_eq!(c.high, sv(&[]));
    let c = split_quotient(&sv(&[1, 2, 3, 4, 5, 6, 7, 8]), 4);
    assert_eq!(c.mid, sv(&[5, 6, 7, 8]));
    assert_eq!(c.high, sv(&[]));
    let c = split_quotient(&sv(&[1, 2]), usize::MAX);
    assert_eq!(c.low, sv(&[1, 2]));
    assert_eq!(copy_range(&t, 2, 5), sv(&[3, 4, 5]));
}

#[test]
fn chunks_recombine_to_the_quotient_at_zeta() {
    let t = sv(&[1, 2, 3, 4, 5, 6, 7, 8, 9, 10]);
    let c = split_quotient(&t, 4);
    let zeta = s(3);
    let combined = combine_chunks(&c, zeta.power(4));
    assert_eq!(evaluate(&combined, zeta), evaluate(&t, zeta));
    assert_eq!(combined, sv(&[1 + 5 * 81 + 9 * 6561, 2 + 6 * 81 + 10 * 6561, 3 + 7 * 81, 4 + 8 * 81]));
}

#[test]
fn bounded_quotient_has_the_size_asked_for() {
    assert_eq!(bound_quotient(&sv(&[1, 2, 3]), 5), sv(&[1, 2, 3, 0, 0]));
    assert_eq!(bound_quotient(&sv(&[1, 2, 3]), 2), sv(&[1, 2]));
    assert_eq!(bound_quotient(&sv(&[1, 2, 3]), 0), sv(&[]));
}

#[test]
fn alpha_powers_start_at_the_square() {
    assert_eq!(alpha_powers(s(2)), sv(&[4, 8, 16, 32]));
    assert_eq!(alpha_powers(s(3)), sv(&[9, 27, 81, 243]));
    assert_eq!(alpha_powers(s(0)), sv(&[0, 0, 0, 0]));
}

#[test]
fn transcript_order() {
    let p = transcript_schedule(Variant::Pairing);
    assert_eq!(
        p,
        vec![
            TranscriptStep::AbsorbPublic,
            TranscriptStep::AbsorbWires,
            TranscriptStep::SqueezeBeta,
            TranscriptStep::SqueezeGamma,
            TranscriptStep::AbsorbAccumulator,
            TranscriptStep::SqueezeAlpha,
            TranscriptStep::AbsorbQuotient,
            TranscriptStep::SqueezeZeta,
            TranscriptStep::SqueezeV,
        ]
    );
    let d = transcript_schedule(Variant::Dlog);
    assert_eq!(d.len(), 10);
    assert_eq!(d[..9], p[..]);
    assert_eq!(d[9], TranscriptStep::SqueezeU);
}

#[test]
fn zero_records() {
    let e = ProofEvaluations::zero();
    assert_eq!(e.l, s(0));
    assert_eq!(e.r, s(0));
    assert_eq!(e.o, s(0));
    assert_eq!(e.sigma1, s(0));
    assert_eq!(e.sigma2, s(0));
    assert_eq!(e.f, s(0));
    assert_eq!(e.z, s(0));
    let c = RandomOracles::zero();
    assert_eq!(c.beta, s(0));
    assert_eq!(c.gamma, s(0));
    assert_eq!(c.alpha, s(0));
    assert_eq!(c.zeta, s(0));
    assert_eq!(c.v, s(0));
}
