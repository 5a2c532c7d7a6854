//! The quotient polynomial: the constraints of gates and permutation summed,
//! divided by the vanishing polynomial of the domain, and cut into chunks
//! that fit a commitment.

use vstd::prelude::*;
use crate::evaluation::vanishes_on_domain;
use crate::field::Scalar;
use crate::field::all_wf;
use crate::field::values;
use crate::field::fmul;
use crate::field::fpow;
use crate::index::ConstraintSystem;
use crate::index::ProofError;
use crate::poly::coeff;
use crate::poly::coeff_at;
use crate::poly::divide_by_linear_exact;
use crate::poly::divide_by_vanishing_exact;
use crate::poly::exact_quotient;
use crate::poly::long_division;
use crate::poly::padd;
use crate::poly::pmul;
use crate::poly::poly_add;
use crate::poly::poly_mul;
use crate::poly::poly_scale;
use crate::poly::poly_shift;
use crate::poly::poly_sub;
use crate::poly::pscale;
use crate::poly::pshift;
use crate::poly::psub;
use crate::poly::vanishing_division;
use crate::poly::x_minus_one;

verus! {

/// The constant polynomial `c`.
pub fn constant(c: Scalar) -> (r: Vec<Scalar>)
    requires
        c.wf(),
    ensures
        all_wf(r@),
        r@.len() == 1,
        values(r@) == seq![c.value()],
{
    let mut r: Vec<Scalar> = Vec::new();
    r.push(c);
    assert(values(r@) =~= seq![c.value()]);
    r
}

/// The polynomial `c0 + c1 * X`.
pub fn linear(c0: Scalar, c1: Scalar) -> (r: Vec<Scalar>)
    requires
        c0.wf(),
        c1.wf(),
    ensures
        all_wf(r@),
        r@.len() == 2,
        values(r@) == seq![c0.value(), c1.value()],
{
    let mut r: Vec<Scalar> = Vec::new();
    r.push(c0);
    r.push(c1);
    assert(values(r@) =~= seq![c0.value(), c1.value()]);
    r
}

/// The chunks of a quotient: coefficients `0..n`, `n..2n` and the rest.
pub struct QuotientChunks {
    pub low: Vec<Scalar>,
    pub mid: Vec<Scalar>,
    pub high: Vec<Scalar>,
}

/// The smaller of two lengths.
pub open spec fn min_len(a: int, b: int) -> int {
    if a <= b {
        a
    } else {
        b
    }
}

/// Cuts the quotient's coefficients at `n` and at `2n`. A chunk beyond the
/// quotient's end is empty, which is the zero polynomial.
pub fn split_quotient(t: &Vec<Scalar>, n: usize) -> (c: QuotientChunks)
    ensures
        c.low@ == t@.subrange(0, min_len(t@.len() as int, n as int)),
        c.mid@ == t@.subrange(
            min_len(t@.len() as int, n as int),
            min_len(t@.len() as int, 2 * n),
        ),
        c.high@ == t@.subrange(min_len(t@.len() as int, 2 * n), t@.len() as int),
        c.low@ + c.mid@ + c.high@ == t@,
{
    let len = t.len();
    let cut1 = if len <= n {
        len
    } else {
        n
    };
    let cut2 = if len <= n {
        len
    } else if len - n <= n {
        len
    } else {
        n + n
    };
    let low = copy_range(t, 0, cut1);
    let mid = copy_range(t, cut1, cut2);
    let high = copy_range(t, cut2, len);
    assert(low@ + mid@ + high@ =~= t@);
    QuotientChunks { low, mid, high }
}

/// The coefficients from `from` up to `to`.
pub fn copy_range(t: &Vec<Scalar>, from: usize, to: usize) -> (r: Vec<Scalar>)
    requires
        from <= to <= t@.len(),
    ensures
        r@ == t@.subrange(from as int, to as int),
{
    let mut r: Vec<Scalar> = Vec::new();
    let mut i: usize = from;
    while i < to
        invariant
            from <= i <= to <= t@.len(),
            r@ == t@.subrange(from as int, i as int),
        decreases to - i,
    {
        r.push(t[i]);
        assert(t@.subrange(from as int, i + 1) =~= t@.subrange(from as int, i as int).push(
            t@[i as int],
        ));
        i = i + 1;
    }
    r
}

/// The polynomial brought to exactly `size` coefficients.
pub open spec fn presize(t: Seq<nat>, size: nat) -> Seq<nat> {
    Seq::new(size, |i: int| coeff(t, i))
}

/// The quotient brought to exactly `size` coefficients: cut where it is
/// longer, filled with zeros where it is shorter.
pub fn bound_quotient(t: &Vec<Scalar>, size: usize) -> (r: Vec<Scalar>)
    requires
        all_wf(t@),
    ensures
        r@.len() == size,
        all_wf(r@),
        values(r@) == presize(values(t@), size as nat),
{
    let mut r: Vec<Scalar> = Vec::new();
    let mut i: usize = 0;
    while i < size
        invariant
            all_wf(t@),
            i <= size,
            r@.len() == i,
            all_wf(r@),
            forall|j: int| 0 <= j < i ==> (#[trigger] r@[j]).value() == coeff(values(t@), j),
        decreases size - i,
    {
        r.push(coeff_at(t, i));
        i = i + 1;
    }
    assert(values(r@) =~= presize(values(t@), size as nat));
    r
}

/// The powers of `alpha` that scale the families of gates: the second to the
/// fifth, in this order. The first power itself is not among them.
pub fn alpha_powers(alpha: Scalar) -> (r: Vec<Scalar>)
    requires
        alpha.wf(),
    ensures
        r@.len() == 4,
        all_wf(r@),
        forall|i: int| 0 <= i < 4 ==> (#[trigger] r@[i]).value() == fpow(alpha.value(), (i + 2) as nat),
{
    let mut r: Vec<Scalar> = Vec::new();
    let mut acc = alpha;
    proof {
        assert(fpow(alpha.value(), 1) == fmul(alpha.value(), fpow(alpha.value(), 0)));
        assert(alpha.value() * 1 == alpha.value());
        vstd::arithmetic::div_mod::lemma_small_mod(alpha.value(), crate::field::modulus());
    }
    let mut i: usize = 0;
    while i < 4
        invariant
            alpha.wf(),
            i <= 4,
            r@.len() == i,
            all_wf(r@),
            acc.wf(),
            acc.value() == fpow(alpha.value(), (i + 1) as nat),
            forall|j: int|
                0 <= j < i ==> (#[trigger] r@[j]).value() == fpow(alpha.value(), (j + 2) as nat),
        decreases 4 - i,
    {
        acc = alpha.times(acc);
        r.push(acc);
        i = i + 1;
    }
    r
}

impl ConstraintSystem {
    /// The generic gates: `qm*l*r + (ql*l + qr*r + qo*o) + qc + p`.
    pub open spec fn generic_part(&self, l: Seq<nat>, r: Seq<nat>, o: Seq<nat>, p: Seq<nat>) -> Seq<
        nat,
    > {
        padd(
            padd(
                padd(
                    pmul(pmul(l, r), values(self.qm@)),
                    padd(
                        padd(pmul(l, values(self.ql@)), pmul(r, values(self.qr@))),
                        pmul(o, values(self.qo@)),
                    ),
                ),
                values(self.qc@),
            ),
            p,
        )
    }

    /// The permutation argument's first product:
    /// `(l + beta*X + gamma)(r + beta*r*X + gamma)(o + beta*o*X + gamma) * z`.
    pub open spec fn identity_part(
        &self,
        l: Seq<nat>,
        r: Seq<nat>,
        o: Seq<nat>,
        z: Seq<nat>,
        beta: nat,
        gamma: nat,
    ) -> Seq<nat> {
        pmul(
            pmul(
                pmul(
                    padd(l, seq![gamma, beta]),
                    padd(r, seq![gamma, fmul(beta, self.r.value())]),
                ),
                padd(o, seq![gamma, fmul(beta, self.o.value())]),
            ),
            z,
        )
    }

    /// The permutation argument's second product:
    /// `(l + beta*s1 + gamma)(r + beta*s2 + gamma)(o + beta*s3 + gamma) * z(w*X)`.
    pub open spec fn permuted_part(
        &self,
        l: Seq<nat>,
        r: Seq<nat>,
        o: Seq<nat>,
        z: Seq<nat>,
        beta: nat,
        gamma: nat,
    ) -> Seq<nat> {
        pmul(
            pmul(
                pmul(
                    padd(padd(l, seq![gamma]), pscale(values(self.sigmam1@), beta)),
                    padd(padd(r, seq![gamma]), pscale(values(self.sigmam2@), beta)),
                ),
                padd(padd(o, seq![gamma]), pscale(values(self.sigmam3@), beta)),
            ),
            pshift(z, self.group_gen.value()),
        )
    }

    /// What is divided by the vanishing polynomial: the generic gates plus
    /// `alpha` times the difference of the two permutation products.
    pub open spec fn constraint_sum(
        &self,
        l: Seq<nat>,
        r: Seq<nat>,
        o: Seq<nat>,
        z: Seq<nat>,
        p: Seq<nat>,
        beta: nat,
        gamma: nat,
        alpha: nat,
    ) -> Seq<nat> {
        padd(
            self.generic_part(l, r, o, p),
            pscale(
                psub(
                    self.identity_part(l, r, o, z, beta, gamma),
                    self.permuted_part(l, r, o, z, beta, gamma),
                ),
                alpha,
            ),
        )
    }

    /// The quotient: the constraint sum over the vanishing polynomial, plus
    /// `alpha^2` times `(z - 1) / (X - 1)`. Either division failing to be
    /// exact is `PolyDivision`.
    pub open spec fn quotient_of(
        &self,
        l: Seq<nat>,
        r: Seq<nat>,
        o: Seq<nat>,
        z: Seq<nat>,
        p: Seq<nat>,
        beta: nat,
        gamma: nat,
        alpha: nat,
    ) -> Result<Seq<nat>, ProofError> {
        let boundary = exact_quotient(long_division(psub(z, seq![1nat]), x_minus_one()));
        let main = exact_quotient(
            vanishing_division(
                self.constraint_sum(l, r, o, z, p, beta, gamma, alpha),
                self.n as nat,
            ),
        );
        match (boundary, main) {
            (Err(e), _) => Err(e),
            (Ok(_), Err(e)) => Err(e),
            (Ok(b), Ok(t)) => Ok(padd(t, pscale(b, fmul(alpha, alpha)))),
        }
    }

    /// Computes the generic gates' part of the constraint sum.
    pub fn generic_constraints(
        &self,
        l: &Vec<Scalar>,
        r: &Vec<Scalar>,
        o: &Vec<Scalar>,
        p: &Vec<Scalar>,
    ) -> (t: Vec<Scalar>)
        requires
            self.wf(),
            4 * self.n + 16 <= 0x1000_0000,
            all_wf(l@),
            all_wf(r@),
            all_wf(o@),
            all_wf(p@),
            l@.len() <= self.n + 3,
            r@.len() <= self.n + 3,
            o@.len() <= self.n + 3,
        ensures
            all_wf(t@),
            values(t@) == self.generic_part(values(l@), values(r@), values(o@), values(p@)),
    {
        let lr = poly_mul(l, r);
        let lrm = poly_mul(&lr, &self.qm);
        let ll = poly_mul(l, &self.ql);
        let rr = poly_mul(r, &self.qr);
        let oo = poly_mul(o, &self.qo);
        let lin = poly_add(&poly_add(&ll, &rr), &oo);
        poly_add(&poly_add(&poly_add(&lrm, &lin), &self.qc), p)
    }

    /// Computes the permutation argument's first product.
    pub fn identity_product(
        &self,
        l: &Vec<Scalar>,
        r: &Vec<Scalar>,
        o: &Vec<Scalar>,
        z: &Vec<Scalar>,
        beta: Scalar,
        gamma: Scalar,
    ) -> (t: Vec<Scalar>)
        requires
            self.wf(),
            4 * self.n + 16 <= 0x1000_0000,
            all_wf(l@),
            all_wf(r@),
            all_wf(o@),
            all_wf(z@),
            l@.len() <= self.n + 3,
            r@.len() <= self.n + 3,
            o@.len() <= self.n + 3,
            z@.len() <= self.n + 3,
            beta.wf(),
            gamma.wf(),
        ensures
            all_wf(t@),
            values(t@) == self.identity_part(
                values(l@),
                values(r@),
                values(o@),
                values(z@),
                beta.value(),
                gamma.value(),
            ),
    {
        let a = poly_add(l, &linear(gamma, beta));
        let b = poly_add(r, &linear(gamma, beta.times(self.r)));
        let c = poly_add(o, &linear(gamma, beta.times(self.o)));
        let ab = poly_mul(&a, &b);
        let abc = poly_mul(&ab, &c);
        poly_mul(&abc, z)
    }

    /// Computes the permutation argument's second product.
    pub fn permuted_product(
        &self,
        l: &Vec<Scalar>,
        r: &Vec<Scalar>,
        o: &Vec<Scalar>,
        z: &Vec<Scalar>,
        beta: Scalar,
        gamma: Scalar,
    ) -> (t: Vec<Scalar>)
        requires
            self.wf(),
            4 * self.n + 16 <= 0x1000_0000,
            all_wf(l@),
            all_wf(r@),
            all_wf(o@),
            all_wf(z@),
            l@.len() <= self.n + 3,
            r@.len() <= self.n + 3,
            o@.len() <= self.n + 3,
            z@.len() <= self.n + 3,
            beta.wf(),
            gamma.wf(),
        ensures
            all_wf(t@),
            values(t@) == self.permuted_part(
                values(l@),
                values(r@),
                values(o@),
                values(z@),
                beta.value(),
                gamma.value(),
            ),
    {
        let g = constant(gamma);
        let a = poly_add(&poly_add(l, &g), &poly_scale(&self.sigmam1, beta));
        let b = poly_add(&poly_add(r, &g), &poly_scale(&self.sigmam2, beta));
        let c = poly_add(&poly_add(o, &g), &poly_scale(&self.sigmam3, beta));
        let ab = poly_mul(&a, &b);
        let abc = poly_mul(&ab, &c);
        let zw = poly_shift(z, self.group_gen);
        poly_mul(&abc, &zw)
    }

    /// Builds the quotient polynomial from the wire polynomials, the grand
    /// product polynomial and the public-input polynomial. Both divisions
    /// must be exact: the boundary condition `(z - 1) / (X - 1)` is tried
    /// first, then the constraint sum over `X^n - 1`. Where a quotient comes
    /// back, the constraint sum is zero at every point of the domain.
    pub fn quotient(
        &self,
        l: &Vec<Scalar>,
        r: &Vec<Scalar>,
        o: &Vec<Scalar>,
        z: &Vec<Scalar>,
        p: &Vec<Scalar>,
        beta: Scalar,
        gamma: Scalar,
        alpha: Scalar,
    ) -> (res: Result<Vec<Scalar>, ProofError>)
        requires
            self.wf(),
            4 * self.n + 16 <= 0x1000_0000,
            all_wf(l@),
            all_wf(r@),
            all_wf(o@),
            all_wf(z@),
            all_wf(p@),
            l@.len() <= self.n + 3,
            r@.len() <= self.n + 3,
            o@.len() <= self.n + 3,
            z@.len() <= self.n + 3,
            beta.wf(),
            gamma.wf(),
            alpha.wf(),
        ensures
            match res {
                Ok(t) => all_wf(t@) && Ok::<Seq<nat>, ProofError>(values(t@)) == self.quotient_of(
                    values(l@),
                    values(r@),
                    values(o@),
                    values(z@),
                    values(p@),
                    beta.value(),
                    gamma.value(),
                    alpha.value(),
                ) && vanishes_on_domain(
                    self.constraint_sum(
                        values(l@),
                        values(r@),
                        values(o@),
                        values(z@),
                        values(p@),
                        beta.value(),
                        gamma.value(),
                        alpha.value(),
                    ),
                    self.n as nat,
                ),
                Err(e) => Err::<Seq<nat>, ProofError>(e) == self.quotient_of(
                    values(l@),
                    values(r@),
                    values(o@),
                    values(z@),
                    values(p@),
                    beta.value(),
                    gamma.value(),
                    alpha.value(),
                ),
            },
    {
        let t1 = self.generic_constraints(l, r, o, p);
        let t2 = self.identity_product(l, r, o, z, beta, gamma);
        let t3 = self.permuted_product(l, r, o, z, beta, gamma);
        let z1 = poly_sub(z, &constant(Scalar::one()));
        let boundary = divide_by_linear_exact(&z1);
        let sum = poly_add(&t1, &poly_scale(&poly_sub(&t2, &t3), alpha));
        let main = divide_by_vanishing_exact(&sum, self.n);
        match boundary {
            Err(e) => Err(e),
            Ok(b) => match main {
                Err(e) => Err(e),
                Ok(t) => Ok(poly_add(&t, &poly_scale(&b, alpha.times(alpha)))),
            },
        }
    }
}

} // verus!
