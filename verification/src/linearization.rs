//! The linearization polynomial: the selectors, the grand product and the
//! last permutation polynomial, each scaled by what the evaluations at
//! `zeta` determine.

use vstd::prelude::*;
use crate::field::Scalar;
use crate::field::all_wf;
use crate::field::values;
use crate::field::fadd;
use crate::field::fsub;
use crate::field::fmul;
use crate::field::finv;
use crate::field::fpow;
use crate::field::lemma_difference_is_zero;
use crate::index::ConstraintSystem;
use crate::index::lemma_domain_size_bounds;
use crate::poly::padd;
use crate::poly::peval;
use crate::poly::poly_add;
use crate::poly::poly_scale;
use crate::poly::poly_sub;
use crate::poly::pscale;
use crate::poly::psub;
use crate::poly::evaluate;
use crate::quotient::QuotientChunks;

verus! {

/// The evaluations that a proof carries: the wires and the first two
/// permutation polynomials at `zeta`, the linearization at `zeta`, and the
/// grand product at `zeta` times the domain's generator.
#[derive(Clone, Copy, Debug, PartialEq, Eq)]
pub struct ProofEvaluations {
    pub l: Scalar,
    pub r: Scalar,
    pub o: Scalar,
    pub sigma1: Scalar,
    pub sigma2: Scalar,
    pub f: Scalar,
    pub z: Scalar,
}

impl ProofEvaluations {
    /// Every evaluation is in canonical form.
    pub open spec fn wf(self) -> bool {
        self.l.wf() && self.r.wf() && self.o.wf() && self.sigma1.wf() && self.sigma2.wf()
            && self.f.wf() && self.z.wf()
    }

    /// The record with every evaluation zero.
    pub fn zero() -> (e: Self)
        ensures
            e.wf(),
            e.l.value() == 0,
            e.r.value() == 0,
            e.o.value() == 0,
            e.sigma1.value() == 0,
            e.sigma2.value() == 0,
            e.f.value() == 0,
            e.z.value() == 0,
    {
        ProofEvaluations {
            l: Scalar::zero(),
            r: Scalar::zero(),
            o: Scalar::zero(),
            sigma1: Scalar::zero(),
            sigma2: Scalar::zero(),
            f: Scalar::zero(),
            z: Scalar::zero(),
        }
    }
}

/// The challenges of one proof, in the order in which they are drawn.
#[derive(Clone, Copy, Debug, PartialEq, Eq)]
pub struct RandomOracles {
    pub beta: Scalar,
    pub gamma: Scalar,
    pub alpha: Scalar,
    pub zeta: Scalar,
    pub v: Scalar,
}

impl RandomOracles {
    /// Every challenge is in canonical form.
    pub open spec fn wf(self) -> bool {
        self.beta.wf() && self.gamma.wf() && self.alpha.wf() && self.zeta.wf() && self.v.wf()
    }

    /// The bundle with every challenge zero.
    pub fn zero() -> (c: Self)
        ensures
            c.wf(),
            c.beta.value() == 0,
            c.gamma.value() == 0,
            c.alpha.value() == 0,
            c.zeta.value() == 0,
            c.v.value() == 0,
    {
        RandomOracles {
            beta: Scalar::zero(),
            gamma: Scalar::zero(),
            alpha: Scalar::zero(),
            zeta: Scalar::zero(),
            v: Scalar::zero(),
        }
    }
}

/// The quotient `a / b` of the field.
pub open spec fn fdiv(a: nat, b: nat) -> nat {
    fmul(a, finv(b))
}

/// Divides in the field, by a divisor that is not zero.
pub fn divide(a: Scalar, b: Scalar) -> (r: Scalar)
    requires
        a.wf(),
        b.wf(),
        b.value() != 0,
    ensures
        r.wf(),
        r.value() == fdiv(a.value(), b.value()),
{
    a.times(b.inverse().unwrap())
}

/// The scalar that multiplies the grand product polynomial:
/// `(l + beta*zeta + gamma)(r + beta*zeta*r + gamma)(o + beta*zeta*o + gamma) * alpha
///  + alpha^2 * (zeta^n - 1) / (zeta - 1)`.
pub open spec fn accumulator_scale(
    e: ProofEvaluations,
    c: RandomOracles,
    r: nat,
    o: nat,
    n: nat,
) -> nat {
    let bz = fmul(c.beta.value(), c.zeta.value());
    fadd(
        fmul(
            fmul(
                fmul(
                    fadd(fadd(e.l.value(), bz), c.gamma.value()),
                    fadd(fadd(e.r.value(), fmul(bz, r)), c.gamma.value()),
                ),
                fadd(fadd(e.o.value(), fmul(bz, o)), c.gamma.value()),
            ),
            c.alpha.value(),
        ),
        fdiv(
            fmul(fmul(c.alpha.value(), c.alpha.value()), fsub(fpow(c.zeta.value(), n), 1)),
            fsub(c.zeta.value(), 1),
        ),
    )
}

/// The scalar that multiplies the third permutation polynomial:
/// `(l + beta*s1 + gamma)(r + beta*s2 + gamma) * beta * z * alpha`.
pub open spec fn permutation_scale(e: ProofEvaluations, c: RandomOracles) -> nat {
    fmul(
        fmul(
            fadd(fadd(e.l.value(), fmul(c.beta.value(), e.sigma1.value())), c.gamma.value()),
            fadd(fadd(e.r.value(), fmul(c.beta.value(), e.sigma2.value())), c.gamma.value()),
        ),
        fmul(fmul(c.beta.value(), e.z.value()), c.alpha.value()),
    )
}

/// The polynomial that is opened in place of the three quotient chunks:
/// `low + zeta^n * mid + zeta^2n * high`.
pub open spec fn combined_chunks(low: Seq<nat>, mid: Seq<nat>, high: Seq<nat>, zeta_n: nat) -> Seq<
    nat,
> {
    padd(padd(low, pscale(mid, zeta_n)), pscale(high, fmul(zeta_n, zeta_n)))
}

/// Recombines the quotient's chunks for the opening at `zeta`.
pub fn combine_chunks(c: &QuotientChunks, zeta_n: Scalar) -> (t: Vec<Scalar>)
    requires
        all_wf(c.low@),
        all_wf(c.mid@),
        all_wf(c.high@),
        zeta_n.wf(),
    ensures
        all_wf(t@),
        values(t@) == combined_chunks(
            values(c.low@),
            values(c.mid@),
            values(c.high@),
            zeta_n.value(),
        ),
{
    let m = poly_scale(&c.mid, zeta_n);
    let h = poly_scale(&c.high, zeta_n.times(zeta_n));
    poly_add(&poly_add(&c.low, &m), &h)
}

impl ConstraintSystem {
    /// The gates' part of the linearization:
    /// `qm * l*r + ql * l + qr * r + qo * o + qc`, with the wires' values.
    pub open spec fn generic_linearization(&self, e: ProofEvaluations) -> Seq<nat> {
        padd(
            padd(
                padd(
                    padd(
                        pscale(values(self.qm@), fmul(e.l.value(), e.r.value())),
                        pscale(values(self.ql@), e.l.value()),
                    ),
                    pscale(values(self.qr@), e.r.value()),
                ),
                pscale(values(self.qo@), e.o.value()),
            ),
            values(self.qc@),
        )
    }

    /// The linearization polynomial: the gates' part, plus the grand product
    /// scaled, minus the third permutation polynomial scaled.
    pub open spec fn linearization_of(&self, z: Seq<nat>, e: ProofEvaluations, c: RandomOracles) -> Seq<
        nat,
    > {
        psub(
            padd(
                self.generic_linearization(e),
                pscale(z, accumulator_scale(e, c, self.r.value(), self.o.value(), self.n as nat)),
            ),
            pscale(values(self.sigmam3@), permutation_scale(e, c)),
        )
    }

    /// The evaluations at `zeta` that do not depend on the linearization:
    /// the wires and the first two permutation polynomials at `zeta`, the
    /// grand product at `zeta` times the generator. The linearization's own
    /// evaluation is left at zero.
    pub fn evaluate_wires(
        &self,
        l: &Vec<Scalar>,
        r: &Vec<Scalar>,
        o: &Vec<Scalar>,
        z: &Vec<Scalar>,
        zeta: Scalar,
    ) -> (e: ProofEvaluations)
        requires
            self.wf(),
            all_wf(l@),
            all_wf(r@),
            all_wf(o@),
            all_wf(z@),
            zeta.wf(),
        ensures
            e.wf(),
            e.l.value() == peval(values(l@), zeta.value()),
            e.r.value() == peval(values(r@), zeta.value()),
            e.o.value() == peval(values(o@), zeta.value()),
            e.sigma1.value() == peval(values(self.sigmam1@), zeta.value()),
            e.sigma2.value() == peval(values(self.sigmam2@), zeta.value()),
            e.z.value() == peval(values(z@), fmul(zeta.value(), self.group_gen.value())),
            e.f.value() == 0,
    {
        ProofEvaluations {
            l: evaluate(l, zeta),
            r: evaluate(r, zeta),
            o: evaluate(o, zeta),
            sigma1: evaluate(&self.sigmam1, zeta),
            sigma2: evaluate(&self.sigmam2, zeta),
            f: Scalar::zero(),
            z: evaluate(z, zeta.times(self.group_gen)),
        }
    }

    /// Builds the linearization polynomial from the grand product polynomial,
    /// the evaluations and the challenges. The challenge `zeta` must not be
    /// one, where `(zeta^n - 1) / (zeta - 1)` has no value.
    pub fn linearization(&self, z: &Vec<Scalar>, e: &ProofEvaluations, c: &RandomOracles) -> (f: Vec<
        Scalar,
    >)
        requires
            self.wf(),
            all_wf(z@),
            e.wf(),
            c.wf(),
            c.zeta.value() != 1,
        ensures
            all_wf(f@),
            values(f@) == self.linearization_of(values(z@), *e, *c),
    {
        proof {
            lemma_domain_size_bounds(self.n as nat);
            lemma_difference_is_zero(c.zeta.value(), 1);
        }
        let f1 = poly_add(
            &poly_add(
                &poly_add(
                    &poly_add(&poly_scale(&self.qm, e.l.times(e.r)), &poly_scale(&self.ql, e.l)),
                    &poly_scale(&self.qr, e.r),
                ),
                &poly_scale(&self.qo, e.o),
            ),
            &self.qc,
        );
        let bz = c.beta.times(c.zeta);
        let one = Scalar::one();
        let zeta_n = c.zeta.power(self.n as u64);
        let s2 = e.l.plus(bz).plus(c.gamma).times(e.r.plus(bz.times(self.r)).plus(c.gamma)).times(
            e.o.plus(bz.times(self.o)).plus(c.gamma),
        ).times(c.alpha).plus(
            divide(c.alpha.times(c.alpha).times(zeta_n.minus(one)), c.zeta.minus(one)),
        );
        let f2 = poly_scale(z, s2);
        let s3 = e.l.plus(c.beta.times(e.sigma1)).plus(c.gamma).times(
            e.r.plus(c.beta.times(e.sigma2)).plus(c.gamma),
        ).times(c.beta.times(e.z).times(c.alpha));
        let f3 = poly_scale(&self.sigmam3, s3);
        poly_sub(&poly_add(&f1, &f2), &f3)
    }
}

} // verus!
