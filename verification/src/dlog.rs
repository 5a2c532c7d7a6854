//! What only the discrete-log variant needs: the quotient assembled from the
//! gate families' contributions and brought to a fixed size, and evaluations
//! taken chunk by chunk.

use vstd::prelude::*;
use crate::evaluation::congruent;
use crate::evaluation::vanishes_on_domain;
use crate::evaluation::ieval;
use crate::evaluation::ipow;
use crate::evaluation::lemma_concat_value;
use crate::evaluation::lemma_eval_congruent;
use crate::evaluation::lemma_pow_congruent;
use crate::field::Scalar;
use crate::field::all_wf;
use crate::field::values;
use crate::field::fmul;
use crate::field::fpow;
use crate::index::ConstraintSystem;
use crate::index::ProofError;
use crate::index::is_domain_size;
use crate::poly::divide_by_linear_exact;
use crate::poly::divide_by_vanishing_exact;
use crate::poly::evaluate;
use crate::poly::exact_quotient;
use crate::poly::interpolate;
use crate::poly::interpolation;
use crate::poly::long_division;
use crate::poly::padd;
use crate::poly::peval;
use crate::poly::poly_add;
use crate::poly::poly_scale;
use crate::poly::poly_sub;
use crate::poly::pscale;
use crate::poly::psub;
use crate::poly::vanishing_division;
use crate::poly::x_minus_one;
use crate::quotient::bound_quotient;
use crate::quotient::constant;
use crate::quotient::copy_range;
use crate::quotient::presize;

verus! {

/// What the families of gates and the permutation contribute to the
/// quotient: values on the domain of order `4n`, values on the domain of
/// order `8n`, and two polynomials given by their coefficients.
pub struct Contributions {
    pub gen4: Vec<Scalar>,
    pub pos4: Vec<Scalar>,
    pub eca4: Vec<Scalar>,
    pub mul4: Vec<Scalar>,
    pub emul4: Vec<Scalar>,
    pub pos8: Vec<Scalar>,
    pub eca8: Vec<Scalar>,
    pub mul8: Vec<Scalar>,
    pub emul8: Vec<Scalar>,
    pub perm: Vec<Scalar>,
    pub genp: Vec<Scalar>,
    pub posp: Vec<Scalar>,
}

impl Contributions {
    /// Every scalar of every contribution is in canonical form.
    pub open spec fn wf(&self) -> bool {
        &&& all_wf(self.gen4@) && all_wf(self.pos4@) && all_wf(self.eca4@) && all_wf(self.mul4@)
            && all_wf(self.emul4@)
        &&& all_wf(self.pos8@) && all_wf(self.eca8@) && all_wf(self.mul8@) && all_wf(self.emul8@)
            && all_wf(self.perm@)
        &&& all_wf(self.genp@) && all_wf(self.posp@)
    }

    /// The contributions on the domain of order `4n`, added point by point.
    pub open spec fn sum4(&self) -> Seq<nat> {
        padd(
            padd(values(self.gen4@), values(self.pos4@)),
            padd(values(self.eca4@), padd(values(self.mul4@), values(self.emul4@))),
        )
    }

    /// The contributions on the domain of order `8n`, added point by point.
    pub open spec fn sum8(&self) -> Seq<nat> {
        padd(
            padd(
                values(self.pos8@),
                padd(values(self.eca8@), padd(values(self.mul8@), values(self.emul8@))),
            ),
            values(self.perm@),
        )
    }

    /// What is divided by the vanishing polynomial: both sums interpolated
    /// over their domains, plus the two polynomials.
    pub open spec fn dividend(&self, n: nat) -> Seq<nat> {
        padd(
            padd(interpolation(self.sum4(), 4 * n), interpolation(self.sum8(), 8 * n)),
            padd(values(self.genp@), values(self.posp@)),
        )
    }
}

/// The quotient of the discrete-log variant: the dividend over `X^n - 1`,
/// plus `scale` times `(z - 1) / (X - 1)`, brought to `size` coefficients.
/// Either division failing to be exact is `PolyDivision`.
pub open spec fn bounded_quotient_of(
    c: &Contributions,
    z: Seq<nat>,
    scale: nat,
    n: nat,
    size: nat,
) -> Result<Seq<nat>, ProofError> {
    let main = exact_quotient(vanishing_division(c.dividend(n), n));
    let boundary = exact_quotient(long_division(psub(z, seq![1nat]), x_minus_one()));
    match (main, boundary) {
        (Err(e), _) => Err(e),
        (Ok(_), Err(e)) => Err(e),
        (Ok(t), Ok(b)) => Ok(presize(padd(t, pscale(b, scale)), size)),
    }
}

impl ConstraintSystem {
    /// Assembles the quotient from the contributions and the grand product
    /// polynomial `z`. `alphas` are the powers of `alpha` from the second on;
    /// the first of them scales the boundary condition.
    pub fn bounded_quotient(
        &self,
        c: &Contributions,
        z: &Vec<Scalar>,
        alphas: &Vec<Scalar>,
        max_quot_size: usize,
    ) -> (res: Result<Vec<Scalar>, ProofError>)
        requires
            self.wf(),
            is_domain_size((4 * self.n) as nat),
            is_domain_size((8 * self.n) as nat),
            c.wf(),
            all_wf(z@),
            all_wf(alphas@),
            alphas@.len() >= 1,
        ensures
            match res {
                Ok(t) => all_wf(t@) && t@.len() == max_quot_size && Ok::<Seq<nat>, ProofError>(
                    values(t@),
                ) == bounded_quotient_of(
                    c,
                    values(z@),
                    alphas@[0].value(),
                    self.n as nat,
                    max_quot_size as nat,
                ) && vanishes_on_domain(c.dividend(self.n as nat), self.n as nat),
                Err(e) => Err::<Seq<nat>, ProofError>(e) == bounded_quotient_of(
                    c,
                    values(z@),
                    alphas@[0].value(),
                    self.n as nat,
                    max_quot_size as nat,
                ),
            },
    {
        proof {
            crate::index::lemma_domain_size_bounds((8 * self.n) as nat);
        }
        let t4 = poly_add(
            &poly_add(&c.gen4, &c.pos4),
            &poly_add(&c.eca4, &poly_add(&c.mul4, &c.emul4)),
        );
        let t8 = poly_add(
            &poly_add(&c.pos8, &poly_add(&c.eca8, &poly_add(&c.mul8, &c.emul8))),
            &c.perm,
        );
        let sum = poly_add(
            &poly_add(&interpolate(&t4, 4 * self.n), &interpolate(&t8, 8 * self.n)),
            &poly_add(&c.genp, &c.posp),
        );
        let main = divide_by_vanishing_exact(&sum, self.n);
        let z1 = poly_sub(z, &constant(Scalar::one()));
        let boundary = divide_by_linear_exact(&z1);
        assert(values(alphas@)[0] == alphas@[0].value());
        match main {
            Err(e) => Err(e),
            Ok(t) => match boundary {
                Err(e) => Err(e),
                Ok(b) => {
                    let whole = poly_add(&t, &poly_scale(&b, alphas[0]));
                    Ok(bound_quotient(&whole, max_quot_size))
                },
            },
        }
    }
}

/// The values at `x` of the chunks of `size` coefficients that `p` is cut
/// into, lowest chunk first. The last chunk may be shorter.
pub open spec fn chunk_values(p: Seq<nat>, x: nat, size: nat) -> Seq<nat>
    decreases p.len(),
{
    if p.len() == 0 || size == 0 {
        Seq::<nat>::empty()
    } else if p.len() <= size {
        seq![peval(p, x)]
    } else {
        seq![peval(p.take(size as int), x)] + chunk_values(p.skip(size as int), x, size)
    }
}

/// Evaluates a polynomial chunk by chunk: one value for each `size`
/// coefficients.
pub fn evaluate_chunks(p: &Vec<Scalar>, x: Scalar, size: usize) -> (r: Vec<Scalar>)
    requires
        all_wf(p@),
        x.wf(),
        size > 0,
    ensures
        all_wf(r@),
        values(r@) == chunk_values(values(p@), x.value(), size as nat),
{
    let ghost whole = values(p@);
    let mut r: Vec<Scalar> = Vec::new();
    let mut start: usize = 0;
    proof {
        assert(whole.skip(0) =~= whole);
        assert(values(r@) + chunk_values(whole, x.value(), size as nat) =~= chunk_values(
            whole,
            x.value(),
            size as nat,
        ));
    }
    while start < p.len()
        invariant
            all_wf(p@),
            x.wf(),
            size > 0,
            whole == values(p@),
            start <= p@.len(),
            all_wf(r@),
            values(r@) + chunk_values(whole.skip(start as int), x.value(), size as nat)
                == chunk_values(whole, x.value(), size as nat),
        decreases p@.len() - start,
    {
        let end = if p.len() - start <= size {
            p.len()
        } else {
            start + size
        };
        let c = copy_range(p, start, end);
        let v = evaluate(&c, x);
        proof {
            let rest = whole.skip(start as int);
            assert(values(c@) =~= rest.take(end - start));
            if end == p@.len() {
                assert(rest.take(end - start) =~= rest);
                assert(whole.skip(end as int).len() == 0);
                assert(chunk_values(rest, x.value(), size as nat) =~= seq![v.value()]
                    + chunk_values(whole.skip(end as int), x.value(), size as nat));
            } else {
                assert(rest.skip(size as int) =~= whole.skip(end as int));
            }
            assert(values(r@.push(v)) =~= values(r@) + seq![v.value()]);
            assert(values(r@.push(v)) + chunk_values(
                whole.skip(end as int),
                x.value(),
                size as nat,
            ) =~= values(r@) + chunk_values(rest, x.value(), size as nat));
        }
        r.push(v);
        start = end;
    }
    assert(chunk_values(whole.skip(start as int), x.value(), size as nat).len() == 0);
    assert(values(r@) =~= values(r@) + Seq::<nat>::empty());
    r
}

/// The chunks' values recombine: read as the coefficients of a polynomial
/// and evaluated at `x^size`, they give the value of the whole polynomial
/// at `x`.
pub proof fn lemma_chunk_values_recombine(p: Seq<nat>, x: nat, size: nat)
    requires
        size > 0,
    ensures
        peval(chunk_values(p, x, size), fpow(x, size)) == peval(p, x),
    decreases p.len(),
{
    let xi = x as int;
    let big = fpow(x, size);
    let c = chunk_values(p, x, size);
    lemma_pow_congruent(x, size);
    if p.len() == 0 {
    } else if p.len() <= size {
        lemma_eval_congruent(p, x);
        assert(c =~= seq![peval(p, x)]);
        assert(c.skip(1) =~= Seq::<nat>::empty());
        assert(ieval(c.skip(1), big as int) == 0);
        assert(ieval(c, big as int) == c[0] + (big as int) * ieval(c.skip(1), big as int));
        assert((big as int) * 0 == 0) by (nonlinear_arith);
        lemma_same_value(c, big, p, x);
    } else {
        let head = p.take(size as int);
        let rest = p.skip(size as int);
        let cr = chunk_values(rest, x, size);
        lemma_chunk_values_recombine(rest, x, size);
        assert(c.skip(1) =~= cr);
        assert(head + rest =~= p);
        lemma_concat_value(head, rest, xi);
        lemma_eval_congruent(head, x);
        lemma_eval_congruent(rest, x);
        lemma_eval_congruent(cr, big);
        let e0 = peval(head, x) as int;
        assert(c[0] == peval(head, x));
        assert(ieval(c, big as int) == c[0] + (big as int) * ieval(c.skip(1), big as int));
        assert(ieval(c, big as int) == e0 + (big as int) * ieval(cr, big as int));
        crate::evaluation::lemma_congruent_product(
            big as int,
            ipow(xi, size),
            ieval(cr, big as int),
            ieval(rest, xi),
        );
        crate::evaluation::lemma_congruent_sum(
            e0,
            ieval(head, xi),
            (big as int) * ieval(cr, big as int),
            ipow(xi, size) * ieval(rest, xi),
        );
        lemma_same_value(c, big, p, x);
    }
}

/// Two polynomials whose values over the integers, each at its own point,
/// are congruent have the same value in the field.
pub proof fn lemma_same_value(a: Seq<nat>, x: nat, b: Seq<nat>, y: nat)
    requires
        congruent(ieval(a, x as int), ieval(b, y as int)),
    ensures
        peval(a, x) == peval(b, y),
{
    lemma_eval_congruent(a, x);
    lemma_eval_congruent(b, y);
    vstd::arithmetic::div_mod::lemma_small_mod(peval(a, x), crate::field::modulus());
    vstd::arithmetic::div_mod::lemma_small_mod(peval(b, y), crate::field::modulus());
}

/// The evaluations at one point, each taken chunk by chunk.
pub struct ChunkedEvaluations {
    pub l: Vec<Scalar>,
    pub r: Vec<Scalar>,
    pub o: Vec<Scalar>,
    pub z: Vec<Scalar>,
    pub t: Vec<Scalar>,
    pub sigma1: Vec<Scalar>,
    pub sigma2: Vec<Scalar>,
    pub f: Vec<Scalar>,
}

/// The two points at which the polynomials are opened: `zeta`, and `zeta`
/// times the domain's generator.
pub fn opening_points(zeta: Scalar, group_gen: Scalar) -> (r: Vec<Scalar>)
    requires
        zeta.wf(),
        group_gen.wf(),
    ensures
        all_wf(r@),
        values(r@) == seq![zeta.value(), fmul(zeta.value(), group_gen.value())],
{
    let mut r: Vec<Scalar> = Vec::new();
    r.push(zeta);
    r.push(zeta.times(group_gen));
    assert(values(r@) =~= seq![zeta.value(), fmul(zeta.value(), group_gen.value())]);
    r
}

impl ConstraintSystem {
    /// The chunked evaluations at `x` of the wires, the grand product, the
    /// quotient and the first two permutation polynomials. The
    /// linearization's evaluation is left empty, to be filled in once the
    /// linearization is built.
    pub fn evaluate_chunked(
        &self,
        l: &Vec<Scalar>,
        r: &Vec<Scalar>,
        o: &Vec<Scalar>,
        z: &Vec<Scalar>,
        t: &Vec<Scalar>,
        x: Scalar,
        max_poly_size: usize,
    ) -> (e: ChunkedEvaluations)
        requires
            self.wf(),
            all_wf(l@),
            all_wf(r@),
            all_wf(o@),
            all_wf(z@),
            all_wf(t@),
            x.wf(),
            max_poly_size > 0,
        ensures
            all_wf(e.l@) && all_wf(e.r@) && all_wf(e.o@) && all_wf(e.z@) && all_wf(e.t@),
            all_wf(e.sigma1@) && all_wf(e.sigma2@),
            values(e.l@) == chunk_values(values(l@), x.value(), max_poly_size as nat),
            values(e.r@) == chunk_values(values(r@), x.value(), max_poly_size as nat),
            values(e.o@) == chunk_values(values(o@), x.value(), max_poly_size as nat),
            values(e.z@) == chunk_values(values(z@), x.value(), max_poly_size as nat),
            values(e.t@) == chunk_values(values(t@), x.value(), max_poly_size as nat),
            values(e.sigma1@) == chunk_values(
                values(self.sigmam1@),
                x.value(),
                max_poly_size as nat,
            ),
            values(e.sigma2@) == chunk_values(
                values(self.sigmam2@),
                x.value(),
                max_poly_size as nat,
            ),
            e.f@.len() == 0,
    {
        ChunkedEvaluations {
            l: evaluate_chunks(l, x, max_poly_size),
            r: evaluate_chunks(r, x, max_poly_size),
            o: evaluate_chunks(o, x, max_poly_size),
            z: evaluate_chunks(z, x, max_poly_size),
            t: evaluate_chunks(t, x, max_poly_size),
            sigma1: evaluate_chunks(&self.sigmam1, x, max_poly_size),
            sigma2: evaluate_chunks(&self.sigmam2, x, max_poly_size),
            f: Vec::new(),
        }
    }
}

} // verus!
