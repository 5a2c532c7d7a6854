//! The prover's rounds. Between two rounds the caller commits to what the
//! round produced, absorbs the commitments into its transcript and draws the
//! next challenges, in the order that `transcript_schedule` fixes.

use vstd::prelude::*;
use crate::encoder::check_witness_length;
use crate::evaluation::lemma_masked_agrees_on_domain;
use crate::evaluation::vanishes_on_domain;
use crate::encoder::masked;
use crate::encoder::mask;
use crate::encoder::random_blind;
use crate::field::Scalar;
use crate::field::all_wf;
use crate::field::values;
use crate::field::fmul;
use crate::field::fpow;
use crate::index::Column;
use crate::index::all_canonical;
use crate::index::ConstraintSystem;
use crate::index::ProofError;
use crate::index::lemma_domain_size_bounds;
use crate::linearization::ProofEvaluations;
use crate::linearization::RandomOracles;
use crate::linearization::combine_chunks;
use crate::linearization::combined_chunks;
use crate::poly::evaluate;
use crate::poly::interpolate;
use crate::poly::interpolation;
use crate::poly::takes_values;
use crate::poly::generator_of;
use crate::poly::coeff;
use crate::encoder::lemma_masked_takes_values;
use crate::poly::peval;
use crate::poly::pneg;
use crate::quotient::QuotientChunks;
use crate::quotient::min_len;
use crate::quotient::split_quotient;

verus! {

/// The two commitment schemes that a proof can be made for.
#[derive(Clone, Copy, Debug, PartialEq, Eq, Structural)]
pub enum Variant {
    /// Pairing-based commitments, opened at two points separately.
    Pairing,
    /// Discrete-log commitments, opened at both points in one batch.
    Dlog,
}

/// One operation on the transcript.
#[derive(Clone, Copy, Debug, PartialEq, Eq, Structural)]
pub enum TranscriptStep {
    AbsorbPublic,
    AbsorbWires,
    SqueezeBeta,
    SqueezeGamma,
    AbsorbAccumulator,
    SqueezeAlpha,
    AbsorbQuotient,
    SqueezeZeta,
    SqueezeV,
    SqueezeU,
}

/// The operations on the transcript, in the one order that prover and
/// verifier share. Only the discrete-log variant draws `u`.
pub open spec fn schedule(v: Variant) -> Seq<TranscriptStep> {
    let common = seq![
        TranscriptStep::AbsorbPublic,
        TranscriptStep::AbsorbWires,
        TranscriptStep::SqueezeBeta,
        TranscriptStep::SqueezeGamma,
        TranscriptStep::AbsorbAccumulator,
        TranscriptStep::SqueezeAlpha,
        TranscriptStep::AbsorbQuotient,
        TranscriptStep::SqueezeZeta,
        TranscriptStep::SqueezeV,
    ];
    match v {
        Variant::Pairing => common,
        Variant::Dlog => common.push(TranscriptStep::SqueezeU),
    }
}

/// The transcript's operations in order.
pub fn transcript_schedule(v: Variant) -> (r: Vec<TranscriptStep>)
    ensures
        r@ == schedule(v),
{
    let mut r: Vec<TranscriptStep> = Vec::new();
    r.push(TranscriptStep::AbsorbPublic);
    r.push(TranscriptStep::AbsorbWires);
    r.push(TranscriptStep::SqueezeBeta);
    r.push(TranscriptStep::SqueezeGamma);
    r.push(TranscriptStep::AbsorbAccumulator);
    r.push(TranscriptStep::SqueezeAlpha);
    r.push(TranscriptStep::AbsorbQuotient);
    r.push(TranscriptStep::SqueezeZeta);
    r.push(TranscriptStep::SqueezeV);
    match v {
        Variant::Pairing => {},
        Variant::Dlog => {
            r.push(TranscriptStep::SqueezeU);
        },
    }
    assert(r@ =~= schedule(v));
    r
}

/// What the first round produces: the public prefix, the public-input
/// polynomial and the three masked wire polynomials.
pub struct WirePolynomials {
    pub public: Vec<Scalar>,
    pub p: Vec<Scalar>,
    pub l: Vec<Scalar>,
    pub r: Vec<Scalar>,
    pub o: Vec<Scalar>,
}

/// What the last round produces: the evaluations, the linearization
/// polynomial and the recombined quotient, ready to be opened.
pub struct Openings {
    pub evals: ProofEvaluations,
    pub f: Vec<Scalar>,
    pub t: Vec<Scalar>,
}

impl ConstraintSystem {
    /// `poly` is the interpolation of one column of the witness plus a
    /// multiple of the vanishing polynomial by `blinds` coefficients.
    pub open spec fn is_wire_polynomial(
        &self,
        w: Seq<Scalar>,
        c: Column,
        blinds: nat,
        poly: Seq<nat>,
    ) -> bool {
        exists|b: Seq<nat>|
            b.len() == blinds && poly == #[trigger] masked(
                interpolation(values(self.column(w, c)), self.n as nat),
                b,
                self.n as nat,
            )
    }

    /// The grand product's values on the domain.
    pub open spec fn accumulator(&self, w: Seq<Scalar>, beta: nat, gamma: nat) -> Seq<nat> {
        Seq::new(self.n as nat, |j: int| self.grand_product(w, beta, gamma, j as nat))
    }

    /// The first round: checks the witness's length, then encodes the public
    /// prefix and the three wire columns.
    pub fn encode_witness(&self, witness: &Vec<Scalar>) -> (res: Result<WirePolynomials, ProofError>)
        requires
            self.wf(),
            all_wf(witness@),
        ensures
            res is Ok <==> witness@.len() == 3 * self.n,
            res matches Err(e) ==> e == ProofError::WitnessCsInconsistent,
            res matches Ok(w) ==> {
                &&& w.public@ == witness@.take(self.public as int)
                &&& all_wf(w.p@) && all_wf(w.l@) && all_wf(w.r@) && all_wf(w.o@)
                &&& w.l@.len() <= self.n + 2 && w.r@.len() <= self.n + 2 && w.o@.len() <= self.n
                    + 2
                &&& values(w.p@) == pneg(interpolation(values(w.public@), self.n as nat))
                &&& self.is_wire_polynomial(witness@, Column::Left, 2, values(w.l@))
                &&& self.is_wire_polynomial(witness@, Column::Right, 2, values(w.r@))
                &&& self.is_wire_polynomial(witness@, Column::Output, 2, values(w.o@))
                &&& takes_values(
                    values(w.l@),
                    values(self.column(witness@, Column::Left)),
                    self.n as nat,
                )
                &&& takes_values(
                    values(w.r@),
                    values(self.column(witness@, Column::Right)),
                    self.n as nat,
                )
                &&& takes_values(
                    values(w.o@),
                    values(self.column(witness@, Column::Output)),
                    self.n as nat,
                )
            },
    {
        match check_witness_length(witness.len(), self.n) {
            Err(e) => Err(e),
            Ok(_) => {
                let public = self.public_input(witness);
                proof {
                    lemma_domain_size_bounds(self.n as nat);
                    assert(all_wf(public@));
                }
                let p = self.public_polynomial(&public);
                let l = self.wire_polynomial(witness, Column::Left);
                let r = self.wire_polynomial(witness, Column::Right);
                let o = self.wire_polynomial(witness, Column::Output);
                Ok(WirePolynomials { public, p, l, r, o })
            },
        }
    }

    /// The first round for a caller that has not checked its inputs: it is
    /// run only on a circuit of the right shape and a witness of canonical
    /// scalars, and `None` tells that one of the two was not so.
    pub fn try_encode_witness(&self, witness: &Vec<Scalar>) -> (res: Option<
        Result<WirePolynomials, ProofError>,
    >)
        ensures
            res is Some <==> self.wf() && all_wf(witness@),
            res matches Some(inner) ==> {
                &&& inner is Ok <==> witness@.len() == 3 * self.n
                &&& inner matches Err(e) ==> e == ProofError::WitnessCsInconsistent
                &&& inner matches Ok(w) ==> {
                    &&& w.public@ == witness@.take(self.public as int)
                    &&& takes_values(
                        values(w.l@),
                        values(self.column(witness@, Column::Left)),
                        self.n as nat,
                    )
                    &&& takes_values(
                        values(w.r@),
                        values(self.column(witness@, Column::Right)),
                        self.n as nat,
                    )
                    &&& takes_values(
                        values(w.o@),
                        values(self.column(witness@, Column::Output)),
                        self.n as nat,
                    )
                }
            },
    {
        if self.validate() && all_canonical(witness) {
            Some(self.encode_witness(witness))
        } else {
            None
        }
    }

    /// The second round: the grand product polynomial, unmasked. It fails
    /// with `ProofCreation` exactly when the product over all rows is not
    /// one.
    pub fn permutation_polynomial(&self, witness: &Vec<Scalar>, beta: Scalar, gamma: Scalar) -> (res:
        Result<Vec<Scalar>, ProofError>)
        requires
            self.wf(),
            witness@.len() == 3 * self.n,
            all_wf(witness@),
            beta.wf(),
            gamma.wf(),
        ensures
            res is Ok <==> self.grand_product(
                witness@,
                beta.value(),
                gamma.value(),
                self.n as nat,
            ) == 1,
            res matches Err(e) ==> e == ProofError::ProofCreation,
            res matches Ok(z) ==> all_wf(z@) && z@.len() <= self.n && values(z@) == interpolation(
                self.accumulator(witness@, beta.value(), gamma.value()),
                self.n as nat,
            ) && takes_values(
                values(z@),
                self.accumulator(witness@, beta.value(), gamma.value()),
                self.n as nat,
            ) && peval(values(z@), 1) == 1,
    {
        match self.permutation_accumulator(witness, beta, gamma) {
            Err(e) => Err(e),
            Ok(acc) => {
                assert(values(acc@) =~= self.accumulator(witness@, beta.value(), gamma.value()));
                let z = interpolate(&acc, self.n);
                proof {
                    lemma_domain_size_bounds(self.n as nat);
                    self.lemma_one_at_one(witness@, beta.value(), gamma.value(), values(z@));
                }
                Ok(z)
            },
        }
    }

    /// A polynomial that takes the grand product's values on the domain is
    /// one at the point one, where the product is empty.
    pub proof fn lemma_one_at_one(&self, w: Seq<Scalar>, beta: nat, gamma: nat, z: Seq<nat>)
        requires
            self.n >= 1,
            takes_values(z, self.accumulator(w, beta, gamma), self.n as nat),
        ensures
            peval(z, 1) == 1,
    {
        let g = generator_of(self.n as nat);
        assert(fpow(g, 0) == 1);
        assert(peval(z, fpow(g, 0)) == coeff(self.accumulator(w, beta, gamma), 0));
        assert(self.grand_product(w, beta, gamma, 0) == 1);
    }

    /// The second round where the grand product polynomial is masked too,
    /// with three fresh random scalars.
    pub fn masked_permutation_polynomial(
        &self,
        witness: &Vec<Scalar>,
        beta: Scalar,
        gamma: Scalar,
    ) -> (res: Result<Vec<Scalar>, ProofError>)
        requires
            self.wf(),
            witness@.len() == 3 * self.n,
            all_wf(witness@),
            beta.wf(),
            gamma.wf(),
        ensures
            res is Ok <==> self.grand_product(
                witness@,
                beta.value(),
                gamma.value(),
                self.n as nat,
            ) == 1,
            res matches Err(e) ==> e == ProofError::ProofCreation,
            res matches Ok(z) ==> all_wf(z@) && z@.len() <= self.n + 3 && exists|b: Seq<nat>|
                b.len() == 3 && values(z@) == #[trigger] masked(
                    interpolation(
                        self.accumulator(witness@, beta.value(), gamma.value()),
                        self.n as nat,
                    ),
                    b,
                    self.n as nat,
                ) && takes_values(
                values(z@),
                self.accumulator(witness@, beta.value(), gamma.value()),
                self.n as nat,
            ) && peval(values(z@), 1) == 1,
    {
        proof {
            lemma_domain_size_bounds(self.n as nat);
        }
        match self.permutation_polynomial(witness, beta, gamma) {
            Err(e) => Err(e),
            Ok(z) => {
                let blind = random_blind(3);
                let m = mask(&z, &blind, self.n);
                proof {
                    lemma_masked_takes_values(
                        values(z@),
                        values(blind@),
                        self.accumulator(witness@, beta.value(), gamma.value()),
                        self.n as nat,
                    );
                    self.lemma_one_at_one(witness@, beta.value(), gamma.value(), values(m@));
                }
                Ok(m)
            },
        }
    }

    /// The third round: the quotient, cut into three chunks. It fails with
    /// `PolyDivision` exactly when one of the two divisions leaves a
    /// remainder; where it succeeds, the constraint sum is zero at every
    /// point of the domain.
    pub fn quotient_chunks(
        &self,
        w: &WirePolynomials,
        z: &Vec<Scalar>,
        beta: Scalar,
        gamma: Scalar,
        alpha: Scalar,
    ) -> (res: Result<QuotientChunks, ProofError>)
        requires
            self.wf(),
            4 * self.n + 16 <= 0x1000_0000,
            all_wf(w.l@),
            all_wf(w.r@),
            all_wf(w.o@),
            all_wf(w.p@),
            all_wf(z@),
            w.l@.len() <= self.n + 3,
            w.r@.len() <= self.n + 3,
            w.o@.len() <= self.n + 3,
            z@.len() <= self.n + 3,
            beta.wf(),
            gamma.wf(),
            alpha.wf(),
        ensures
            match res {
                Ok(c) => {
                    let t = c.low@ + c.mid@ + c.high@;
                    &&& all_wf(c.low@) && all_wf(c.mid@) && all_wf(c.high@)
                    &&& Ok::<Seq<nat>, ProofError>(values(t)) == self.quotient_of(
                        values(w.l@),
                        values(w.r@),
                        values(w.o@),
                        values(z@),
                        values(w.p@),
                        beta.value(),
                        gamma.value(),
                        alpha.value(),
                    )
                    &&& c.low@.len() == min_len(t.len() as int, self.n as int)
                    &&& c.mid@.len() == min_len(t.len() as int, 2 * self.n) - c.low@.len()
                    &&& vanishes_on_domain(
                        self.constraint_sum(
                            values(w.l@),
                            values(w.r@),
                            values(w.o@),
                            values(z@),
                            values(w.p@),
                            beta.value(),
                            gamma.value(),
                            alpha.value(),
                        ),
                        self.n as nat,
                    )
                },
                Err(e) => Err::<Seq<nat>, ProofError>(e) == self.quotient_of(
                    values(w.l@),
                    values(w.r@),
                    values(w.o@),
                    values(z@),
                    values(w.p@),
                    beta.value(),
                    gamma.value(),
                    alpha.value(),
                ),
            },
    {
        match self.quotient(&w.l, &w.r, &w.o, z, &w.p, beta, gamma, alpha) {
            Err(e) => Err(e),
            Ok(t) => {
                let c = split_quotient(&t, self.n);
                Ok(c)
            },
        }
    }

    /// The last round: the evaluations at `zeta`, the linearization
    /// polynomial with its own evaluation, and the quotient's chunks
    /// recombined with the powers of `zeta^n`. The challenge `zeta` must not
    /// be one.
    pub fn evaluate_and_linearize(
        &self,
        w: &WirePolynomials,
        z: &Vec<Scalar>,
        chunks: &QuotientChunks,
        c: &RandomOracles,
    ) -> (out: Openings)
        requires
            self.wf(),
            all_wf(w.l@),
            all_wf(w.r@),
            all_wf(w.o@),
            all_wf(z@),
            all_wf(chunks.low@),
            all_wf(chunks.mid@),
            all_wf(chunks.high@),
            c.wf(),
            c.zeta.value() != 1,
        ensures
            out.evals.wf(),
            all_wf(out.f@),
            all_wf(out.t@),
            out.evals.l.value() == peval(values(w.l@), c.zeta.value()),
            out.evals.r.value() == peval(values(w.r@), c.zeta.value()),
            out.evals.o.value() == peval(values(w.o@), c.zeta.value()),
            out.evals.sigma1.value() == peval(values(self.sigmam1@), c.zeta.value()),
            out.evals.sigma2.value() == peval(values(self.sigmam2@), c.zeta.value()),
            out.evals.z.value() == peval(
                values(z@),
                fmul(c.zeta.value(), self.group_gen.value()),
            ),
            values(out.f@) == self.linearization_of(values(z@), out.evals, *c),
            out.evals.f.value() == peval(values(out.f@), c.zeta.value()),
            values(out.t@) == combined_chunks(
                values(chunks.low@),
                values(chunks.mid@),
                values(chunks.high@),
                fpow(c.zeta.value(), self.n as nat),
            ),
    {
        let e0 = self.evaluate_wires(&w.l, &w.r, &w.o, z, c.zeta);
        let f = self.linearization(z, &e0, c);
        let fz = evaluate(&f, c.zeta);
        let evals = ProofEvaluations {
            l: e0.l,
            r: e0.r,
            o: e0.o,
            sigma1: e0.sigma1,
            sigma2: e0.sigma2,
            f: fz,
            z: e0.z,
        };
        proof {
            lemma_domain_size_bounds(self.n as nat);
        }
        let zeta_n = c.zeta.power(self.n as u64);
        let t = combine_chunks(chunks, zeta_n);
        Openings { evals, f, t }
    }
}

/// A wire polynomial agrees with the unmasked interpolation of its column at
/// every point of the domain, that is at every `x` whose `n`-th power is
/// one, whatever the blind was.
pub proof fn lemma_wire_polynomial_agrees_on_domain(
    cs: ConstraintSystem,
    w: Seq<Scalar>,
    c: Column,
    blinds: nat,
    poly: Seq<nat>,
    x: nat,
)
    requires
        cs.is_wire_polynomial(w, c, blinds, poly),
        fpow(x, cs.n as nat) == 1,
    ensures
        peval(poly, x) == peval(interpolation(values(cs.column(w, c)), cs.n as nat), x),
{
    let unmasked = interpolation(values(cs.column(w, c)), cs.n as nat);
    let b = choose|b: Seq<nat>|
        b.len() == blinds && poly == #[trigger] masked(unmasked, b, cs.n as nat);
    lemma_masked_agrees_on_domain(unmasked, b, cs.n as nat, x);
}

} // verus!
