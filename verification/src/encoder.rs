//! The witness encoder: from the flat witness to the public-input polynomial
//! and the three masked wire polynomials.

use vstd::prelude::*;
use crate::field::Scalar;
use crate::field::all_wf;
use crate::field::values;
use crate::field::field_random;
use crate::index::Column;
use crate::index::ConstraintSystem;
use crate::index::ProofError;
use crate::index::lemma_domain_size_bounds;
use crate::poly::interpolate;
use crate::poly::interpolation;
use crate::poly::mul_by_vanishing_poly;
use crate::poly::padd;
use crate::poly::pneg;
use crate::poly::poly_add;
use crate::poly::poly_neg;
use crate::poly::vanishing_multiple;
use crate::poly::takes_values;
use crate::poly::generator_of;
use crate::poly::peval;
use crate::poly::coeff;
use crate::field::fpow;
use crate::evaluation::lemma_masked_agrees_on_domain;
use crate::evaluation::lemma_power_stays_on_domain;

verus! {

/// A witness is accepted exactly when it has three entries per gate.
pub fn check_witness_length(witness_len: usize, n: usize) -> (res: Result<(), ProofError>)
    ensures
        res is Ok <==> witness_len == 3 * n,
        res matches Err(e) ==> e == ProofError::WitnessCsInconsistent,
{
    if n <= usize::MAX / 3 && witness_len == 3 * n {
        Ok(())
    } else {
        Err(ProofError::WitnessCsInconsistent)
    }
}

/// The polynomial `p` plus `blind * (X^n - 1)`.
pub open spec fn masked(p: Seq<nat>, blind: Seq<nat>, n: nat) -> Seq<nat> {
    padd(p, vanishing_multiple(blind, n))
}

/// Adds to `p` the given multiple of the vanishing polynomial of the domain
/// of order `n`, which changes no value on the domain.
pub fn mask(p: &Vec<Scalar>, blind: &Vec<Scalar>, n: usize) -> (r: Vec<Scalar>)
    requires
        all_wf(p@),
        all_wf(blind@),
        blind@.len() + n <= usize::MAX,
    ensures
        all_wf(r@),
        p@.len() >= blind@.len() + n ==> r@.len() == p@.len(),
        p@.len() < blind@.len() + n ==> r@.len() == blind@.len() + n,
        values(r@) == masked(values(p@), values(blind@), n as nat),
{
    let m = mul_by_vanishing_poly(blind, n);
    poly_add(p, &m)
}

/// Masking keeps the values on the domain: where `p` takes the given values,
/// so does `p` plus any multiple of `X^n - 1`.
pub proof fn lemma_masked_takes_values(p: Seq<nat>, blind: Seq<nat>, evals: Seq<nat>, n: nat)
    requires
        takes_values(p, evals, n),
        fpow(generator_of(n), n) == 1,
    ensures
        takes_values(masked(p, blind, n), evals, n),
{
    assert forall|i: nat| i < n implies #[trigger] peval(
        masked(p, blind, n),
        fpow(generator_of(n), i),
    ) == coeff(evals, i as int) by {
        lemma_power_stays_on_domain(generator_of(n), n, i);
        lemma_masked_agrees_on_domain(p, blind, n, fpow(generator_of(n), i));
        assert(peval(p, fpow(generator_of(n), i)) == coeff(evals, i as int));
    }
}

/// Draws `count` fresh scalars from the operating system's generator.
pub fn random_blind(count: usize) -> (r: Vec<Scalar>)
    ensures
        r@.len() == count,
        all_wf(r@),
{
    let mut r: Vec<Scalar> = Vec::new();
    let mut i: usize = 0;
    while i < count
        invariant
            i <= count,
            r@.len() == i,
            all_wf(r@),
        decreases count - i,
    {
        let x = field_random();
        r.push(x);
        i = i + 1;
    }
    r
}

impl ConstraintSystem {
    /// The values that the gates read in one column, row by row.
    pub open spec fn column(&self, w: Seq<Scalar>, c: Column) -> Seq<Scalar> {
        Seq::new(self.gates@.len(), |i: int| w[self.gates@[i].wire(c) as int])
    }

    /// The public prefix of the witness.
    pub fn public_input(&self, witness: &Vec<Scalar>) -> (r: Vec<Scalar>)
        requires
            self.wf(),
            witness@.len() == 3 * self.n,
        ensures
            r@ == witness@.take(self.public as int),
    {
        let mut r: Vec<Scalar> = Vec::new();
        let mut i: usize = 0;
        while i < self.public
            invariant
                self.public <= self.n,
                witness@.len() == 3 * self.n,
                i <= self.public,
                r@ == witness@.take(i as int),
            decreases self.public - i,
        {
            r.push(witness[i]);
            assert(witness@.take(i + 1) =~= witness@.take(i as int).push(witness@[i as int]));
            i = i + 1;
        }
        r
    }

    /// The public-input polynomial: the negated interpolation of the public
    /// prefix, padded with zeros to the domain. It is not masked.
    pub fn public_polynomial(&self, public: &Vec<Scalar>) -> (r: Vec<Scalar>)
        requires
            self.wf(),
            all_wf(public@),
        ensures
            all_wf(r@),
            r@.len() <= self.n,
            values(r@) == pneg(interpolation(values(public@), self.n as nat)),
    {
        let p = interpolate(public, self.n);
        poly_neg(&p)
    }

    /// The values of one column, read through the gates' wires.
    pub fn wire_values(&self, witness: &Vec<Scalar>, c: Column) -> (r: Vec<Scalar>)
        requires
            self.wf(),
            witness@.len() == 3 * self.n,
        ensures
            r@ == self.column(witness@, c),
    {
        let mut r: Vec<Scalar> = Vec::new();
        let mut i: usize = 0;
        while i < self.gates.len()
            invariant
                self.wf(),
                witness@.len() == 3 * self.n,
                i <= self.gates@.len(),
                r@.len() == i,
                forall|j: int| 0 <= j < i ==> #[trigger] r@[j] == self.column(witness@, c)[j],
            decreases self.gates@.len() - i,
        {
            let g = self.gates[i];
            assert(self.gates@[i as int] == g);
            let k = g.wire_of(c);
            r.push(witness[k]);
            i = i + 1;
        }
        assert(r@ =~= self.column(witness@, c));
        r
    }

    /// One wire polynomial, masked with the given blind: the interpolation of
    /// the column plus `blind * (X^n - 1)`.
    pub fn wire_polynomial_with(&self, witness: &Vec<Scalar>, c: Column, blind: &Vec<Scalar>) -> (r:
        Vec<Scalar>)
        requires
            self.wf(),
            witness@.len() == 3 * self.n,
            all_wf(witness@),
            all_wf(blind@),
            blind@.len() <= 4,
        ensures
            all_wf(r@),
            r@.len() <= self.n + blind@.len(),
            values(r@) == masked(
                interpolation(values(self.column(witness@, c)), self.n as nat),
                values(blind@),
                self.n as nat,
            ),
            takes_values(values(r@), values(self.column(witness@, c)), self.n as nat),
    {
        proof {
            lemma_domain_size_bounds(self.n as nat);
        }
        let col = self.wire_values(witness, c);
        assert(all_wf(col@)) by {
            assert forall|i: int| 0 <= i < col@.len() implies (#[trigger] col@[i]).wf() by {
                let g = self.gates@[i];
                assert(col@[i] == witness@[g.wire(c) as int]);
            }
        }
        let p = interpolate(&col, self.n);
        proof {
            lemma_masked_takes_values(values(p@), values(blind@), values(col@), self.n as nat);
        }
        mask(&p, blind, self.n)
    }

    /// One wire polynomial, masked with two fresh random scalars. Whatever
    /// they are, the result is the column's interpolation plus a multiple of
    /// the vanishing polynomial by a polynomial of degree at most one.
    pub fn wire_polynomial(&self, witness: &Vec<Scalar>, c: Column) -> (r: Vec<Scalar>)
        requires
            self.wf(),
            witness@.len() == 3 * self.n,
            all_wf(witness@),
        ensures
            all_wf(r@),
            r@.len() <= self.n + 2,
            exists|b: Seq<nat>|
                b.len() == 2 && values(r@) == #[trigger] masked(
                    interpolation(values(self.column(witness@, c)), self.n as nat),
                    b,
                    self.n as nat,
                ),
            takes_values(values(r@), values(self.column(witness@, c)), self.n as nat),
    {
        let blind = random_blind(2);
        self.wire_polynomial_with(witness, c, &blind)
    }
}

} // verus!
