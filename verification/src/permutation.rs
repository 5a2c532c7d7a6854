//! The permutation argument: the grand product that closes to one exactly
//! when the witness respects the circuit's copy constraints.

use vstd::prelude::*;
use crate::field::Scalar;
use crate::field::all_wf;
use crate::field::fadd;
use crate::field::fmul;
use crate::field::finv;
use crate::field::field_batch_inversion;
use crate::index::ConstraintSystem;
use crate::index::ProofError;
use crate::index::lemma_domain_size_bounds;

verus! {

/// One factor of the grand product: `w + beta * s + gamma`.
pub open spec fn wire_term(w: nat, s: nat, beta: nat, gamma: nat) -> nat {
    fadd(fadd(w, fmul(beta, s)), gamma)
}

/// Computes one factor of the grand product.
pub fn wire_factor(w: Scalar, s: Scalar, beta: Scalar, gamma: Scalar) -> (r: Scalar)
    requires
        w.wf(),
        s.wf(),
        beta.wf(),
        gamma.wf(),
    ensures
        r.wf(),
        r.value() == wire_term(w.value(), s.value(), beta.value(), gamma.value()),
{
    w.plus(beta.times(s)).plus(gamma)
}

impl ConstraintSystem {
    /// The numerator of row `j`: the three wires of the row against the
    /// identity permutation, each column under its tag.
    pub open spec fn numerator(&self, w: Seq<Scalar>, beta: nat, gamma: nat, j: int) -> nat {
        let n = self.n as int;
        let s = self.sid@[j].value();
        fmul(
            fmul(
                wire_term(w[j].value(), s, beta, gamma),
                wire_term(w[j + n].value(), fmul(self.r.value(), s), beta, gamma),
            ),
            wire_term(w[j + 2 * n].value(), fmul(self.o.value(), s), beta, gamma),
        )
    }

    /// The denominator of row `j`: the three wires of the row against the
    /// circuit's permutation.
    pub open spec fn denominator(&self, w: Seq<Scalar>, beta: nat, gamma: nat, j: int) -> nat {
        let n = self.n as int;
        fmul(
            fmul(
                wire_term(w[j].value(), self.sigmal1@[j].value(), beta, gamma),
                wire_term(w[j + n].value(), self.sigmal2@[j].value(), beta, gamma),
            ),
            wire_term(w[j + 2 * n].value(), self.sigmal3@[j].value(), beta, gamma),
        )
    }

    /// The grand product after `j` rows: one, times each row's numerator over
    /// its denominator. A row whose denominator is zero contributes zero.
    pub open spec fn grand_product(&self, w: Seq<Scalar>, beta: nat, gamma: nat, j: nat) -> nat
        decreases j,
    {
        if j == 0 {
            1
        } else {
            fmul(
                fmul(
                    self.grand_product(w, beta, gamma, (j - 1) as nat),
                    self.numerator(w, beta, gamma, j - 1),
                ),
                finv(self.denominator(w, beta, gamma, j - 1)),
            )
        }
    }

    /// The numerator of row `j`.
    pub fn row_numerator(&self, witness: &Vec<Scalar>, beta: Scalar, gamma: Scalar, j: usize) -> (r:
        Scalar)
        requires
            self.wf(),
            witness@.len() == 3 * self.n,
            all_wf(witness@),
            beta.wf(),
            gamma.wf(),
            j < self.n,
        ensures
            r.wf(),
            r.value() == self.numerator(witness@, beta.value(), gamma.value(), j as int),
    {
        proof {
            lemma_domain_size_bounds(self.n as nat);
        }
        let n = self.n;
        let s = self.sid[j];
        let a = wire_factor(witness[j], s, beta, gamma);
        let b = wire_factor(witness[j + n], self.r.times(s), beta, gamma);
        let c = wire_factor(witness[j + 2 * n], self.o.times(s), beta, gamma);
        a.times(b).times(c)
    }

    /// The denominator of row `j`.
    pub fn row_denominator(
        &self,
        witness: &Vec<Scalar>,
        beta: Scalar,
        gamma: Scalar,
        j: usize,
    ) -> (r: Scalar)
        requires
            self.wf(),
            witness@.len() == 3 * self.n,
            all_wf(witness@),
            beta.wf(),
            gamma.wf(),
            j < self.n,
        ensures
            r.wf(),
            r.value() == self.denominator(witness@, beta.value(), gamma.value(), j as int),
    {
        proof {
            lemma_domain_size_bounds(self.n as nat);
        }
        let n = self.n;
        let a = wire_factor(witness[j], self.sigmal1[j], beta, gamma);
        let b = wire_factor(witness[j + n], self.sigmal2[j], beta, gamma);
        let c = wire_factor(witness[j + 2 * n], self.sigmal3[j], beta, gamma);
        a.times(b).times(c)
    }

    /// Builds the values of the grand product on the domain, `z[0]` to
    /// `z[n - 1]`, and checks that the product over all `n` rows is one.
    /// The denominators are inverted together, in one batch.
    pub fn permutation_accumulator(&self, witness: &Vec<Scalar>, beta: Scalar, gamma: Scalar) -> (res:
        Result<Vec<Scalar>, ProofError>)
        requires
            self.wf(),
            witness@.len() == 3 * self.n,
            all_wf(witness@),
            beta.wf(),
            gamma.wf(),
        ensures
            res is Ok <==> self.grand_product(
                witness@,
                beta.value(),
                gamma.value(),
                self.n as nat,
            ) == 1,
            res matches Ok(z) ==> z@.len() == self.n && all_wf(z@) && forall|j: int|
                0 <= j < self.n ==> (#[trigger] z@[j]).value() == self.grand_product(
                    witness@,
                    beta.value(),
                    gamma.value(),
                    j as nat,
                ),
            res matches Err(e) ==> e == ProofError::ProofCreation,
    {
        proof {
            lemma_domain_size_bounds(self.n as nat);
        }
        let n = self.n;
        let mut d: Vec<Scalar> = Vec::new();
        let mut j: usize = 0;
        while j < n
            invariant
                self.wf(),
                n == self.n,
                witness@.len() == 3 * n,
                all_wf(witness@),
                beta.wf(),
                gamma.wf(),
                j <= n,
                d@.len() == j,
                all_wf(d@),
                forall|i: int|
                    0 <= i < j ==> (#[trigger] d@[i]).value() == self.denominator(
                        witness@,
                        beta.value(),
                        gamma.value(),
                        i,
                    ),
            decreases n - j,
        {
            let x = self.row_denominator(witness, beta, gamma, j);
            d.push(x);
            j = j + 1;
        }
        let ghost dens = d@;
        field_batch_inversion(&mut d);
        let mut z: Vec<Scalar> = Vec::new();
        let mut acc = Scalar::one();
        let mut j: usize = 0;
        while j < n
            invariant
                self.wf(),
                n == self.n,
                witness@.len() == 3 * n,
                all_wf(witness@),
                beta.wf(),
                gamma.wf(),
                j <= n,
                d@.len() == n,
                all_wf(d@),
                forall|i: int|
                    0 <= i < n ==> (#[trigger] d@[i]).value() == finv(
                        self.denominator(witness@, beta.value(), gamma.value(), i),
                    ),
                z@.len() == j,
                all_wf(z@),
                acc.wf(),
                acc.value() == self.grand_product(
                    witness@,
                    beta.value(),
                    gamma.value(),
                    j as nat,
                ),
                forall|i: int|
                    0 <= i < j ==> (#[trigger] z@[i]).value() == self.grand_product(
                        witness@,
                        beta.value(),
                        gamma.value(),
                        i as nat,
                    ),
            decreases n - j,
        {
            z.push(acc);
            let num = self.row_numerator(witness, beta, gamma, j);
            acc = acc.times(num).times(d[j]);
            j = j + 1;
        }
        if acc.is_one() {
            Ok(z)
        } else {
            Err(ProofError::ProofCreation)
        }
    }
}

} // verus!
