//! Polynomials over the scalar field as coefficient vectors, lowest degree
//! first. The coefficient-wise operations are proved here; transforms,
//! products and divisions are delegated to `ark_poly`.

use vstd::prelude::*;
use ark_ff::BigInt;
use ark_ff::PrimeField;
use ark_bn254::Fr;
use ark_poly::DenseUVPolynomial;
use ark_poly::EvaluationDomain;
use ark_poly::Evaluations;
use ark_poly::Radix2EvaluationDomain;
use ark_poly::univariate::DenseOrSparsePolynomial;
use ark_poly::univariate::DensePolynomial;
use crate::field::Scalar;
use crate::field::all_wf;
use crate::field::values;
use crate::field::fadd;
use crate::field::fsub;
use crate::field::fmul;
use crate::field::fpow;
use crate::evaluation::lemma_exact_multiple_vanishes;
use crate::evaluation::vanishes_on_domain;
use crate::index::is_domain_size;
use crate::index::ProofError;

verus! {

/// The coefficient of degree `i`, which is zero beyond the vector's end.
pub open spec fn coeff(p: Seq<nat>, i: int) -> nat {
    if 0 <= i < p.len() {
        p[i]
    } else {
        0
    }
}

/// Every coefficient is zero.
pub open spec fn is_zero_poly(p: Seq<nat>) -> bool {
    forall|i: int| 0 <= i < p.len() ==> #[trigger] p[i] == 0
}

/// The sum of two polynomials.
pub open spec fn padd(a: Seq<nat>, b: Seq<nat>) -> Seq<nat> {
    Seq::new(
        if a.len() >= b.len() {
            a.len()
        } else {
            b.len()
        },
        |i: int| fadd(coeff(a, i), coeff(b, i)),
    )
}

/// The difference of two polynomials.
pub open spec fn psub(a: Seq<nat>, b: Seq<nat>) -> Seq<nat> {
    Seq::new(
        if a.len() >= b.len() {
            a.len()
        } else {
            b.len()
        },
        |i: int| fsub(coeff(a, i), coeff(b, i)),
    )
}

/// The polynomial with every coefficient multiplied by `c`.
pub open spec fn pscale(a: Seq<nat>, c: nat) -> Seq<nat> {
    Seq::new(a.len(), |i: int| fmul(a[i], c))
}

/// The polynomial with every coefficient negated.
pub open spec fn pneg(a: Seq<nat>) -> Seq<nat> {
    Seq::new(a.len(), |i: int| fsub(0, a[i]))
}

/// The polynomial `a(w * X)`.
pub open spec fn pshift(a: Seq<nat>, w: nat) -> Seq<nat> {
    Seq::new(a.len(), |i: int| fmul(a[i], fpow(w, i as nat)))
}

/// The polynomial `b * (X^n - 1)`.
pub open spec fn vanishing_multiple(b: Seq<nat>, n: nat) -> Seq<nat> {
    Seq::new(b.len() + n, |i: int| fsub(coeff(b, i - n), coeff(b, i)))
}

/// The value of the polynomial at `x`.
pub open spec fn peval(a: Seq<nat>, x: nat) -> nat
    decreases a.len(),
{
    if a.len() == 0 {
        0
    } else {
        fadd(a[0], fmul(x, peval(a.skip(1), x)))
    }
}

/// The first `i` terms of the sum that makes the coefficient of degree `k`
/// of the product of `a` and `b`.
pub open spec fn product_sum(a: Seq<nat>, b: Seq<nat>, k: int, i: nat) -> nat
    decreases i,
{
    if i == 0 {
        0
    } else {
        fadd(product_sum(a, b, k, (i - 1) as nat), fmul(coeff(a, i - 1), coeff(b, k - (i - 1))))
    }
}

/// The coefficient of degree `k` of the product of `a` and `b`.
pub open spec fn product_coeff(a: Seq<nat>, b: Seq<nat>, k: int) -> nat {
    product_sum(a, b, k, a.len())
}

/// The coefficients without the zeros at the high end.
pub open spec fn ptrim(s: Seq<nat>) -> Seq<nat>
    decreases s.len(),
{
    if s.len() == 0 {
        s
    } else if s.last() == 0 {
        ptrim(s.drop_last())
    } else {
        s
    }
}

/// The product of two polynomials, with no zero coefficient at its end.
pub open spec fn pmul(a: Seq<nat>, b: Seq<nat>) -> Seq<nat> {
    ptrim(Seq::new(a.len() + b.len(), |k: int| product_coeff(a, b, k)))
}

/// Trimming never lengthens.
pub proof fn lemma_trim_len(s: Seq<nat>)
    ensures
        ptrim(s).len() <= s.len(),
    decreases s.len(),
{
    if s.len() > 0 && s.last() == 0 {
        lemma_trim_len(s.drop_last());
    }
}

/// A product has at most as many coefficients as its factors together.
pub proof fn lemma_product_len(a: Seq<nat>, b: Seq<nat>)
    ensures
        pmul(a, b).len() <= a.len() + b.len(),
{
    lemma_trim_len(Seq::new(a.len() + b.len(), |k: int| product_coeff(a, b, k)));
}

/// Every coefficient of a product is a canonical representative.
pub proof fn lemma_product_sum_reduced(a: Seq<nat>, b: Seq<nat>, k: int, i: nat)
    ensures
        product_sum(a, b, k, i) < crate::field::modulus(),
{
}

/// `q` and `r` are a quotient and a remainder of `p` by `X^n - 1`: `p` is
/// `q * (X^n - 1) + r`, coefficient by coefficient.
pub open spec fn is_vanishing_division(p: Seq<nat>, q: Seq<nat>, r: Seq<nat>, n: nat) -> bool {
    forall|i: int| #[trigger] coeff(p, i) == fadd(coeff(vanishing_multiple(q, n), i), coeff(r, i))
}

/// `q` and `r` are a quotient and a remainder of `p` by `d`: `p` is
/// `q * d + r`, coefficient by coefficient.
pub open spec fn is_division(p: Seq<nat>, d: Seq<nat>, q: Seq<nat>, r: Seq<nat>) -> bool {
    forall|i: int| #[trigger] coeff(p, i) == fadd(product_coeff(q, d, i), coeff(r, i))
}

/// The generator of the domain of order `n` that `ark_poly` works over.
pub uninterp spec fn generator_of(n: nat) -> nat;

/// `p` takes the given values on the domain of order `n`: the `i`-th value
/// at the `i`-th power of the generator, and zero where the values end.
pub open spec fn takes_values(p: Seq<nat>, evals: Seq<nat>, n: nat) -> bool {
    forall|i: nat|
        i < n ==> #[trigger] peval(p, fpow(generator_of(n), i)) == coeff(evals, i as int)
}

/// The coefficients of the polynomial of degree below `n` that takes the
/// given values on the domain of order `n`, as `ark_poly` computes them.
pub uninterp spec fn interpolation(evals: Seq<nat>, n: nat) -> Seq<nat>;

/// Quotient and remainder of `p` by `X^n - 1`, as `ark_poly` computes them.
pub uninterp spec fn vanishing_division(p: Seq<nat>, n: nat) -> Option<(Seq<nat>, Seq<nat>)>;

/// Quotient and remainder of `p` by `d`, as `ark_poly` computes them.
pub uninterp spec fn long_division(p: Seq<nat>, d: Seq<nat>) -> Option<(Seq<nat>, Seq<nat>)>;

/// The coefficient of degree `i`, read from a vector.
pub fn coeff_at(p: &Vec<Scalar>, i: usize) -> (r: Scalar)
    requires
        all_wf(p@),
    ensures
        r.wf(),
        r.value() == coeff(values(p@), i as int),
{
    if i < p.len() {
        p[i]
    } else {
        Scalar::zero()
    }
}

/// Tells whether every coefficient is zero.
pub fn is_zero(p: &Vec<Scalar>) -> (r: bool)
    ensures
        r == is_zero_poly(values(p@)),
{
    let mut i: usize = 0;
    while i < p.len()
        invariant
            i <= p@.len(),
            forall|j: int| 0 <= j < i ==> (#[trigger] values(p@)[j]) == 0,
        decreases p@.len() - i,
    {
        if !p[i].is_zero() {
            assert(values(p@)[i as int] != 0);
            return false;
        }
        i = i + 1;
    }
    true
}

/// The sum of two polynomials, as long as the longer of them.
pub fn poly_add(a: &Vec<Scalar>, b: &Vec<Scalar>) -> (r: Vec<Scalar>)
    requires
        all_wf(a@),
        all_wf(b@),
    ensures
        all_wf(r@),
        r@.len() == if a@.len() >= b@.len() {
            a@.len()
        } else {
            b@.len()
        },
        values(r@) == padd(values(a@), values(b@)),
{
    let len = if a.len() >= b.len() {
        a.len()
    } else {
        b.len()
    };
    let mut r: Vec<Scalar> = Vec::new();
    let mut i: usize = 0;
    while i < len
        invariant
            all_wf(a@),
            all_wf(b@),
            len == padd(values(a@), values(b@)).len(),
            i <= len,
            r@.len() == i,
            all_wf(r@),
            forall|j: int|
                0 <= j < i ==> (#[trigger] r@[j]).value() == padd(values(a@), values(b@))[j],
        decreases len - i,
    {
        let x = coeff_at(a, i).plus(coeff_at(b, i));
        r.push(x);
        i = i + 1;
    }
    assert(values(r@) =~= padd(values(a@), values(b@)));
    r
}

/// The difference of two polynomials, as long as the longer of them.
pub fn poly_sub(a: &Vec<Scalar>, b: &Vec<Scalar>) -> (r: Vec<Scalar>)
    requires
        all_wf(a@),
        all_wf(b@),
    ensures
        all_wf(r@),
        r@.len() == if a@.len() >= b@.len() {
            a@.len()
        } else {
            b@.len()
        },
        values(r@) == psub(values(a@), values(b@)),
{
    let len = if a.len() >= b.len() {
        a.len()
    } else {
        b.len()
    };
    let mut r: Vec<Scalar> = Vec::new();
    let mut i: usize = 0;
    while i < len
        invariant
            all_wf(a@),
            all_wf(b@),
            len == psub(values(a@), values(b@)).len(),
            i <= len,
            r@.len() == i,
            all_wf(r@),
            forall|j: int|
                0 <= j < i ==> (#[trigger] r@[j]).value() == psub(values(a@), values(b@))[j],
        decreases len - i,
    {
        let x = coeff_at(a, i).minus(coeff_at(b, i));
        r.push(x);
        i = i + 1;
    }
    assert(values(r@) =~= psub(values(a@), values(b@)));
    r
}

/// The polynomial with every coefficient multiplied by `c`.
pub fn poly_scale(a: &Vec<Scalar>, c: Scalar) -> (r: Vec<Scalar>)
    requires
        all_wf(a@),
        c.wf(),
    ensures
        all_wf(r@),
        r@.len() == a@.len(),
        values(r@) == pscale(values(a@), c.value()),
{
    let mut r: Vec<Scalar> = Vec::new();
    let mut i: usize = 0;
    while i < a.len()
        invariant
            all_wf(a@),
            c.wf(),
            i <= a@.len(),
            r@.len() == i,
            all_wf(r@),
            forall|j: int|
                0 <= j < i ==> (#[trigger] r@[j]).value() == pscale(values(a@), c.value())[j],
        decreases a@.len() - i,
    {
        let x = a[i].times(c);
        r.push(x);
        i = i + 1;
    }
    assert(values(r@) =~= pscale(values(a@), c.value()));
    r
}

/// The polynomial `a(w * X)`: the coefficient of degree `i` is multiplied by
/// the `i`-th power of `w`.
pub fn poly_shift(a: &Vec<Scalar>, w: Scalar) -> (r: Vec<Scalar>)
    requires
        all_wf(a@),
        w.wf(),
    ensures
        all_wf(r@),
        r@.len() == a@.len(),
        values(r@) == pshift(values(a@), w.value()),
{
    let mut r: Vec<Scalar> = Vec::new();
    let mut pw = Scalar::one();
    let mut i: usize = 0;
    while i < a.len()
        invariant
            all_wf(a@),
            w.wf(),
            i <= a@.len(),
            r@.len() == i,
            all_wf(r@),
            pw.wf(),
            pw.value() == fpow(w.value(), i as nat),
            forall|j: int|
                0 <= j < i ==> (#[trigger] r@[j]).value() == pshift(values(a@), w.value())[j],
        decreases a@.len() - i,
    {
        let x = a[i].times(pw);
        r.push(x);
        pw = w.times(pw);
        i = i + 1;
    }
    assert(values(r@) =~= pshift(values(a@), w.value()));
    r
}

/// The polynomial `b * (X^n - 1)`.
pub fn mul_by_vanishing_poly(b: &Vec<Scalar>, n: usize) -> (r: Vec<Scalar>)
    requires
        all_wf(b@),
        b@.len() + n <= usize::MAX,
    ensures
        all_wf(r@),
        r@.len() == b@.len() + n,
        values(r@) == vanishing_multiple(values(b@), n as nat),
{
    let len = b.len() + n;
    let mut r: Vec<Scalar> = Vec::new();
    let mut i: usize = 0;
    while i < len
        invariant
            all_wf(b@),
            len == b@.len() + n,
            i <= len,
            r@.len() == i,
            all_wf(r@),
            forall|j: int|
                0 <= j < i ==> (#[trigger] r@[j]).value() == vanishing_multiple(
                    values(b@),
                    n as nat,
                )[j],
        decreases len - i,
    {
        let hi = if i >= n {
            coeff_at(b, i - n)
        } else {
            Scalar::zero()
        };
        let x = hi.minus(coeff_at(b, i));
        r.push(x);
        i = i + 1;
    }
    assert(values(r@) =~= vanishing_multiple(values(b@), n as nat));
    r
}

/// The value of the polynomial at `x`, by Horner's rule.
pub fn evaluate(a: &Vec<Scalar>, x: Scalar) -> (r: Scalar)
    requires
        all_wf(a@),
        x.wf(),
    ensures
        r.wf(),
        r.value() == peval(values(a@), x.value()),
{
    let mut acc = Scalar::zero();
    let mut i: usize = a.len();
    assert(values(a@).skip(i as int).len() == 0);
    while i > 0
        invariant
            all_wf(a@),
            x.wf(),
            i <= a@.len(),
            acc.wf(),
            acc.value() == peval(values(a@).skip(i as int), x.value()),
        decreases i,
    {
        i = i - 1;
        proof {
            let s = values(a@).skip(i as int);
            assert(s.skip(1) =~= values(a@).skip(i + 1));
            assert(s[0] == a@[i as int].value());
        }
        acc = a[i].plus(x.times(acc));
    }
    assert(values(a@).skip(0) =~= values(a@));
    acc
}

/// Reads `group_gen` of `ark_poly::Radix2EvaluationDomain` of order `n`: a
/// generator of the subgroup of that order, so its `n`-th power is one.
#[verifier::external_body]
pub(crate) fn radix2_generator(n: usize) -> (g: Scalar)
    requires
        is_domain_size(n as nat),
    ensures
        g.wf(),
        g.value() == generator_of(n as nat),
        fpow(g.value(), n as nat) == 1,
{
    let d = Radix2EvaluationDomain::<Fr>::new(n).unwrap();
    Scalar { limbs: d.group_gen.into_bigint().0 }
}

/// Calls `ark_poly::Evaluations::interpolate` over `Radix2EvaluationDomain`
/// of order `n`: the inverse transform of the values, which are padded with
/// zeros to the domain's order. The result has at most `n` coefficients and
/// takes the `i`-th value at the `i`-th power of the domain's generator.
#[verifier::external_body]
pub(crate) fn domain_interpolate(evals: &Vec<Scalar>, n: usize) -> (r: Vec<Scalar>)
    requires
        is_domain_size(n as nat),
        all_wf(evals@),
    ensures
        all_wf(r@),
        r@.len() <= n,
        values(r@) == interpolation(values(evals@), n as nat),
        takes_values(values(r@), values(evals@), n as nat),
{
    let d = Radix2EvaluationDomain::<Fr>::new(n).unwrap();
    let e: Vec<Fr> = evals.iter().map(|s| BigInt(s.limbs).into()).collect();
    let p = Evaluations::from_vec_and_domain(e, d).interpolate();
    p.coeffs.iter().map(|x| Scalar { limbs: x.into_bigint().0 }).collect()
}

/// Calls `*` of `ark_poly::univariate::DensePolynomial`: the product, with
/// no zero coefficient at its end.
#[verifier::external_body]
pub(crate) fn dense_mul(a: &Vec<Scalar>, b: &Vec<Scalar>) -> (r: Vec<Scalar>)
    requires
        all_wf(a@),
        all_wf(b@),
        a@.len() + b@.len() <= 0x1000_0000,
    ensures
        all_wf(r@),
        values(r@) == pmul(values(a@), values(b@)),
{
    let x = DensePolynomial::<Fr>::from_coefficients_vec(
        a.iter().map(|s| BigInt(s.limbs).into()).collect(),
    );
    let y = DensePolynomial::<Fr>::from_coefficients_vec(
        b.iter().map(|s| BigInt(s.limbs).into()).collect(),
    );
    (&x * &y).coeffs.iter().map(|x| Scalar { limbs: x.into_bigint().0 }).collect()
}

/// Calls `ark_poly::univariate::DensePolynomial::divide_by_vanishing_poly`
/// over the domain of order `n`: quotient and remainder by `X^n - 1`, so that
/// the dividend is the quotient times `X^n - 1` plus the remainder.
#[verifier::external_body]
pub(crate) fn dense_divide_by_vanishing(p: &Vec<Scalar>, n: usize) -> (r: Option<
    (Vec<Scalar>, Vec<Scalar>),
>)
    requires
        is_domain_size(n as nat),
        all_wf(p@),
    ensures
        r is Some <==> vanishing_division(values(p@), n as nat) is Some,
        r matches Some(qr) ==> {
            &&& all_wf(qr.0@) && all_wf(qr.1@)
            &&& Some((values(qr.0@), values(qr.1@))) == vanishing_division(values(p@), n as nat)
            &&& is_vanishing_division(values(p@), values(qr.0@), values(qr.1@), n as nat)
        },
{
    let d = Radix2EvaluationDomain::<Fr>::new(n).unwrap();
    let x = DensePolynomial::<Fr>::from_coefficients_vec(
        p.iter().map(|s| BigInt(s.limbs).into()).collect(),
    );
    x.divide_by_vanishing_poly(d).map(|(q, m)| (
        q.coeffs.iter().map(|x| Scalar { limbs: x.into_bigint().0 }).collect(),
        m.coeffs.iter().map(|x| Scalar { limbs: x.into_bigint().0 }).collect(),
    ))
}

/// Calls `ark_poly::univariate::DenseOrSparsePolynomial::divide_with_q_and_r`
/// on two dense polynomials: quotient and remainder, so that the dividend is
/// the quotient times the divisor plus the remainder.
#[verifier::external_body]
pub(crate) fn dense_divide(p: &Vec<Scalar>, d: &Vec<Scalar>) -> (r: Option<
    (Vec<Scalar>, Vec<Scalar>),
>)
    requires
        all_wf(p@),
        all_wf(d@),
        !is_zero_poly(values(d@)),
    ensures
        r is Some <==> long_division(values(p@), values(d@)) is Some,
        r matches Some(qr) ==> {
            &&& all_wf(qr.0@) && all_wf(qr.1@)
            &&& Some((values(qr.0@), values(qr.1@))) == long_division(values(p@), values(d@))
            &&& is_division(values(p@), values(d@), values(qr.0@), values(qr.1@))
        },
{
    let x = DensePolynomial::<Fr>::from_coefficients_vec(
        p.iter().map(|s| BigInt(s.limbs).into()).collect(),
    );
    let y = DensePolynomial::<Fr>::from_coefficients_vec(
        d.iter().map(|s| BigInt(s.limbs).into()).collect(),
    );
    DenseOrSparsePolynomial::from(&x).divide_with_q_and_r(&(&y).into()).map(|(q, m)| (
        q.coeffs.iter().map(|x| Scalar { limbs: x.into_bigint().0 }).collect(),
        m.coeffs.iter().map(|x| Scalar { limbs: x.into_bigint().0 }).collect(),
    ))
}

/// The coefficients of the polynomial of degree below `n` that takes the
/// given values on the domain of order `n`.
pub fn interpolate(evals: &Vec<Scalar>, n: usize) -> (r: Vec<Scalar>)
    requires
        is_domain_size(n as nat),
        all_wf(evals@),
    ensures
        all_wf(r@),
        r@.len() <= n,
        values(r@) == interpolation(values(evals@), n as nat),
        takes_values(values(r@), values(evals@), n as nat),
{
    domain_interpolate(evals, n)
}

/// The generator of the domain of order `n`.
pub fn domain_generator(n: usize) -> (g: Scalar)
    requires
        is_domain_size(n as nat),
    ensures
        g.wf(),
        g.value() == generator_of(n as nat),
        fpow(g.value(), n as nat) == 1,
{
    radix2_generator(n)
}

/// The product of two polynomials whose lengths together stay within the
/// largest domain.
pub fn poly_mul(a: &Vec<Scalar>, b: &Vec<Scalar>) -> (r: Vec<Scalar>)
    requires
        all_wf(a@),
        all_wf(b@),
        a@.len() + b@.len() <= 0x1000_0000,
    ensures
        all_wf(r@),
        r@.len() <= a@.len() + b@.len(),
        values(r@) == pmul(values(a@), values(b@)),
{
    proof {
        lemma_product_len(values(a@), values(b@));
    }
    dense_mul(a, b)
}

/// The polynomial with every coefficient negated.
pub fn poly_neg(a: &Vec<Scalar>) -> (r: Vec<Scalar>)
    requires
        all_wf(a@),
    ensures
        all_wf(r@),
        r@.len() == a@.len(),
        values(r@) == pneg(values(a@)),
{
    let mut r: Vec<Scalar> = Vec::new();
    let mut i: usize = 0;
    while i < a.len()
        invariant
            all_wf(a@),
            i <= a@.len(),
            r@.len() == i,
            all_wf(r@),
            forall|j: int| 0 <= j < i ==> (#[trigger] r@[j]).value() == pneg(values(a@))[j],
        decreases a@.len() - i,
    {
        let x = a[i].negated();
        r.push(x);
        i = i + 1;
    }
    assert(values(r@) =~= pneg(values(a@)));
    r
}

/// What a division that must be exact yields: the quotient where the
/// remainder is zero, and `PolyDivision` where it is not or where the
/// division gave nothing.
pub open spec fn exact_quotient(d: Option<(Seq<nat>, Seq<nat>)>) -> Result<Seq<nat>, ProofError> {
    match d {
        Some(qr) => if is_zero_poly(qr.1) {
            Ok(qr.0)
        } else {
            Err(ProofError::PolyDivision)
        },
        None => Err(ProofError::PolyDivision),
    }
}

/// Accepts the outcome of a division only where nothing remains.
pub fn require_exact(d: Option<(Vec<Scalar>, Vec<Scalar>)>) -> (res: Result<Vec<Scalar>, ProofError>)
    ensures
        match (res, d) {
            (Ok(q), Some(qr)) => q == qr.0 && is_zero_poly(values(qr.1@)),
            (Err(e), Some(qr)) => e == ProofError::PolyDivision && !is_zero_poly(values(qr.1@)),
            (Err(e), None) => e == ProofError::PolyDivision,
            (Ok(_), None) => false,
        },
{
    match d {
        Some(qr) => {
            if is_zero(&qr.1) {
                Ok(qr.0)
            } else {
                Err(ProofError::PolyDivision)
            }
        },
        None => Err(ProofError::PolyDivision),
    }
}

/// Divides by `X^n - 1` and insists that nothing remains: on success the
/// dividend is exactly the quotient times `X^n - 1`, and so is zero at every
/// point of the domain.
pub fn divide_by_vanishing_exact(p: &Vec<Scalar>, n: usize) -> (res: Result<Vec<Scalar>, ProofError>)
    requires
        is_domain_size(n as nat),
        all_wf(p@),
    ensures
        match res {
            Ok(q) => all_wf(q@) && Ok::<Seq<nat>, ProofError>(values(q@)) == exact_quotient(
                vanishing_division(values(p@), n as nat),
            ) && (forall|i: int|
                #[trigger] coeff(values(p@), i) == coeff(
                    vanishing_multiple(values(q@), n as nat),
                    i,
                )) && vanishes_on_domain(values(p@), n as nat),
            Err(e) => Err::<Seq<nat>, ProofError>(e) == exact_quotient(
                vanishing_division(values(p@), n as nat),
            ),
        },
{
    let d = dense_divide_by_vanishing(p, n);
    let ghost found = d;
    let res = require_exact(d);
    proof {
        if res is Ok {
            let q = res->Ok_0;
            let qr = found->Some_0;
            assert forall|i: int|
                #[trigger] coeff(values(p@), i) == coeff(
                    vanishing_multiple(values(q@), n as nat),
                    i,
                ) by {
                let m = vanishing_multiple(values(q@), n as nat);
                assert(coeff(values(p@), i) == fadd(coeff(m, i), coeff(values(qr.1@), i)));
                assert(coeff(values(qr.1@), i) == 0);
                assert(coeff(m, i) < crate::field::modulus());
                vstd::arithmetic::div_mod::lemma_small_mod(coeff(m, i), crate::field::modulus());
            }
            lemma_exact_multiple_vanishes(values(p@), values(q@), n as nat);
        }
    }
    res
}

/// Divides by `X - 1` and insists that nothing remains: on success the
/// dividend is exactly the quotient times `X - 1`.
pub fn divide_by_linear_exact(p: &Vec<Scalar>) -> (res: Result<Vec<Scalar>, ProofError>)
    requires
        all_wf(p@),
    ensures
        match res {
            Ok(q) => all_wf(q@) && Ok::<Seq<nat>, ProofError>(values(q@)) == exact_quotient(
                long_division(values(p@), x_minus_one()),
            ) && forall|i: int|
                #[trigger] coeff(values(p@), i) == product_coeff(values(q@), x_minus_one(), i),
            Err(e) => Err::<Seq<nat>, ProofError>(e) == exact_quotient(
                long_division(values(p@), x_minus_one()),
            ),
        },
{
    let mut d: Vec<Scalar> = Vec::new();
    d.push(Scalar::one().negated());
    d.push(Scalar::one());
    assert(values(d@) =~= x_minus_one());
    assert(values(d@)[1] == 1);
    let out = dense_divide(p, &d);
    let ghost found = out;
    let res = require_exact(out);
    proof {
        if res is Ok {
            let q = res->Ok_0;
            let qr = found->Some_0;
            assert forall|i: int|
                #[trigger] coeff(values(p@), i) == product_coeff(
                    values(q@),
                    x_minus_one(),
                    i,
                ) by {
                let c = product_coeff(values(qr.0@), values(d@), i);
                assert(coeff(values(p@), i) == fadd(c, coeff(values(qr.1@), i)));
                assert(coeff(values(qr.1@), i) == 0);
                lemma_product_sum_reduced(values(qr.0@), values(d@), i, values(qr.0@).len());
                vstd::arithmetic::div_mod::lemma_small_mod(c, crate::field::modulus());
            }
        }
    }
    res
}

/// The coefficients of `X - 1`.
pub open spec fn x_minus_one() -> Seq<nat> {
    seq![fsub(0, 1), 1]
}

} // verus!
