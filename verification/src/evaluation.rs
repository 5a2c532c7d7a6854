//! What holds of the values of polynomials: masking with a multiple of the
//! vanishing polynomial changes no value on the domain, and the chunks of a
//! quotient recombine to the quotient's value.

use vstd::prelude::*;
use vstd::arithmetic::div_mod::lemma_add_mod_noop;
use vstd::arithmetic::div_mod::lemma_mod_twice;
use vstd::arithmetic::div_mod::lemma_mul_mod_noop_general;
use vstd::arithmetic::div_mod::lemma_small_mod;
use vstd::arithmetic::div_mod::lemma_sub_mod_noop;
use vstd::arithmetic::div_mod::lemma_mod_add_multiples_vanish;
use vstd::arithmetic::div_mod::lemma_mod_bound;
use crate::encoder::masked;
use crate::field::fadd;
use crate::field::fmul;
use crate::field::fpow;
use crate::field::fsub;
use crate::field::modulus;
use crate::poly::coeff;
use crate::poly::padd;
use crate::poly::peval;
use crate::poly::pscale;
use crate::poly::vanishing_multiple;
use crate::linearization::combined_chunks;

verus! {

/// The polynomial without its constant coefficient, one degree down.
pub open spec fn tail(a: Seq<nat>) -> Seq<nat> {
    if a.len() == 0 {
        a
    } else {
        a.skip(1)
    }
}

/// The value of the polynomial at `x` over the integers, with no reduction.
pub open spec fn ieval(a: Seq<nat>, x: int) -> int
    decreases a.len(),
{
    if a.len() == 0 {
        0
    } else {
        a[0] + x * ieval(a.skip(1), x)
    }
}

/// The power `x^n` over the integers.
pub open spec fn ipow(x: int, n: nat) -> int
    decreases n,
{
    if n == 0 {
        1
    } else {
        x * ipow(x, (n - 1) as nat)
    }
}

/// Two integers stand for the same field element.
pub open spec fn congruent(a: int, b: int) -> bool {
    a % (modulus() as int) == b % (modulus() as int)
}

/// The polynomial `X^k * u - v`, coefficient by coefficient.
pub open spec fn shifted_difference(u: Seq<nat>, v: Seq<nat>, k: nat) -> Seq<nat> {
    Seq::new(
        if u.len() + k >= v.len() {
            u.len() + k
        } else {
            v.len()
        },
        |i: int| fsub(coeff(u, i - k), coeff(v, i)),
    )
}

proof fn lemma_congruent_reduce(a: int)
    ensures
        congruent(a % (modulus() as int), a),
{
    lemma_mod_twice(a, modulus() as int);
}

/// Congruent summands have congruent sums.
pub proof fn lemma_congruent_sum(a: int, a2: int, b: int, b2: int)
    requires
        congruent(a, a2),
        congruent(b, b2),
    ensures
        congruent(a + b, a2 + b2),
{
    lemma_add_mod_noop(a, b, modulus() as int);
    lemma_add_mod_noop(a2, b2, modulus() as int);
}

proof fn lemma_congruent_sub(a: int, a2: int, b: int, b2: int)
    requires
        congruent(a, a2),
        congruent(b, b2),
    ensures
        congruent(a - b, a2 - b2),
{
    lemma_sub_mod_noop(a, b, modulus() as int);
    lemma_sub_mod_noop(a2, b2, modulus() as int);
}

/// Congruent factors have congruent products.
pub proof fn lemma_congruent_product(x: int, x2: int, a: int, a2: int)
    requires
        congruent(x, x2),
        congruent(a, a2),
    ensures
        congruent(x * a, x2 * a2),
{
    lemma_mul_mod_noop_general(x, a, modulus() as int);
    lemma_mul_mod_noop_general(x2, a2, modulus() as int);
}

proof fn lemma_fsub_congruent(a: nat, b: nat)
    ensures
        congruent(fsub(a, b) as int, a - b),
{
    let m = modulus() as int;
    lemma_mod_bound(a + m - b, m);
    lemma_mod_add_multiples_vanish(a - b, m);
    assert(a + m - b == m + (a - b));
    lemma_mod_twice(a + m - b, m);
}

proof fn lemma_ieval_unfold(a: Seq<nat>, x: int)
    ensures
        ieval(a, x) == coeff(a, 0) + x * ieval(tail(a), x),
{
    if a.len() == 0 {
        assert(x * 0 == 0) by (nonlinear_arith);
    }
}

/// The value in the field is the value over the integers, reduced.
pub proof fn lemma_eval_congruent(a: Seq<nat>, x: nat)
    ensures
        congruent(peval(a, x) as int, ieval(a, x as int)),
        peval(a, x) < modulus(),
    decreases a.len(),
{
    let m = modulus() as int;
    if a.len() > 0 {
        let t = a.skip(1);
        lemma_eval_congruent(t, x);
        let p = peval(t, x) as int;
        let i = ieval(t, x as int);
        let xi = x as int;
        lemma_congruent_reduce(xi * p);
        lemma_congruent_product(xi, xi, p, i);
        lemma_congruent_sum(a[0] as int, a[0] as int, (xi * p) % m, xi * i);
        lemma_congruent_reduce(a[0] + (xi * p) % m);
        assert(fmul(x, peval(t, x)) == (xi * p) % m);
        assert(peval(a, x) == (a[0] + (xi * p) % m) % m);
        lemma_mod_bound(a[0] + (xi * p) % m, m);
    }
}

/// Polynomials with congruent values over the integers have the same value
/// in the field.
pub proof fn lemma_eval_equal(a: Seq<nat>, b: Seq<nat>, x: nat)
    requires
        congruent(ieval(a, x as int), ieval(b, x as int)),
    ensures
        peval(a, x) == peval(b, x),
{
    lemma_eval_congruent(a, x);
    lemma_eval_congruent(b, x);
    lemma_small_mod(peval(a, x), modulus());
    lemma_small_mod(peval(b, x), modulus());
}

/// The power in the field is the power over the integers, reduced.
pub proof fn lemma_pow_congruent(x: nat, n: nat)
    ensures
        congruent(fpow(x, n) as int, ipow(x as int, n)),
    decreases n,
{
    if n > 0 {
        let k = (n - 1) as nat;
        lemma_pow_congruent(x, k);
        let xi = x as int;
        lemma_congruent_product(xi, xi, fpow(x, k) as int, ipow(xi, k));
        lemma_congruent_reduce(xi * (fpow(x, k) as int));
        assert(fpow(x, n) == (xi * (fpow(x, k) as int)) % (modulus() as int));
    }
}

/// The value of a sum is the sum of the values.
pub proof fn lemma_sum_value(a: Seq<nat>, b: Seq<nat>, x: int)
    ensures
        congruent(ieval(padd(a, b), x), ieval(a, x) + ieval(b, x)),
    decreases padd(a, b).len(),
{
    let s = padd(a, b);
    if s.len() > 0 {
        let ta = tail(a);
        let tb = tail(b);
        assert(s.skip(1) =~= padd(ta, tb));
        lemma_sum_value(ta, tb, x);
        lemma_ieval_unfold(a, x);
        lemma_ieval_unfold(b, x);
        let ca = coeff(a, 0) as int;
        let cb = coeff(b, 0) as int;
        lemma_congruent_reduce(ca + cb);
        assert(s[0] == fadd(coeff(a, 0), coeff(b, 0)));
        lemma_congruent_product(x, x, ieval(padd(ta, tb), x), ieval(ta, x) + ieval(tb, x));
        lemma_congruent_sum(
            s[0] as int,
            ca + cb,
            x * ieval(padd(ta, tb), x),
            x * (ieval(ta, x) + ieval(tb, x)),
        );
        assert(ca + cb + x * (ieval(ta, x) + ieval(tb, x)) == (ca + x * ieval(ta, x)) + (cb + x
            * ieval(tb, x))) by (nonlinear_arith);
    } else {
        assert(a.len() == 0 && b.len() == 0);
    }
}

/// The value of `X^k * u - v` is `x^k` times the value of `u`, minus the
/// value of `v`.
pub proof fn lemma_shifted_difference_value(u: Seq<nat>, v: Seq<nat>, k: nat, x: int)
    ensures
        congruent(
            ieval(shifted_difference(u, v, k), x),
            ipow(x, k) * ieval(u, x) - ieval(v, x),
        ),
    decreases shifted_difference(u, v, k).len(),
{
    let d = shifted_difference(u, v, k);
    if d.len() == 0 {
        assert(u.len() == 0 && v.len() == 0);
        assert(ipow(x, k) * 0 == 0) by (nonlinear_arith);
    } else if k > 0 {
        let j = (k - 1) as nat;
        let tv = tail(v);
        let e = shifted_difference(u, tv, j);
        assert(d.skip(1) =~= e);
        lemma_shifted_difference_value(u, tv, j, x);
        lemma_ieval_unfold(v, x);
        let cv = coeff(v, 0) as int;
        let iu = ieval(u, x);
        let itv = ieval(tv, x);
        assert(d[0] == fsub(0, coeff(v, 0)));
        lemma_fsub_congruent(0, coeff(v, 0));
        lemma_congruent_product(x, x, ieval(e, x), ipow(x, j) * iu - itv);
        lemma_congruent_sum(d[0] as int, 0 - cv, x * ieval(e, x), x * (ipow(x, j) * iu - itv));
        let pj = ipow(x, j);
        assert(ipow(x, k) == x * pj);
        assert((0 - cv) + x * (pj * iu - itv) == (x * pj) * iu - (cv + x * itv))
            by (nonlinear_arith);
    } else {
        let tu = tail(u);
        let tv = tail(v);
        let e = shifted_difference(tu, tv, 0);
        assert(d.skip(1) =~= e);
        lemma_shifted_difference_value(tu, tv, 0, x);
        lemma_ieval_unfold(u, x);
        lemma_ieval_unfold(v, x);
        let cu = coeff(u, 0) as int;
        let cv = coeff(v, 0) as int;
        let itu = ieval(tu, x);
        let itv = ieval(tv, x);
        assert(d[0] == fsub(coeff(u, 0), coeff(v, 0)));
        lemma_fsub_congruent(coeff(u, 0), coeff(v, 0));
        assert(ipow(x, 0) == 1);
        lemma_congruent_product(x, x, ieval(e, x), 1 * itu - itv);
        lemma_congruent_sum(d[0] as int, cu - cv, x * ieval(e, x), x * (1 * itu - itv));
        assert((cu - cv) + x * (1 * itu - itv) == 1 * (cu + x * itu) - (cv + x * itv))
            by (nonlinear_arith);
    }
}

/// A multiple of the vanishing polynomial `X^n - 1` is zero at every point
/// whose `n`-th power is one, that is at every point of the domain.
pub proof fn lemma_vanishing_multiple_is_zero_on_domain(b: Seq<nat>, n: nat, x: nat)
    requires
        fpow(x, n) == 1,
    ensures
        peval(vanishing_multiple(b, n), x) == 0,
{
    let xi = x as int;
    let ib = ieval(b, xi);
    assert(vanishing_multiple(b, n) =~= shifted_difference(b, b, n));
    lemma_shifted_difference_value(b, b, n, xi);
    lemma_pow_congruent(x, n);
    lemma_congruent_product(ipow(xi, n), 1, ib, ib);
    lemma_congruent_sub(ipow(xi, n) * ib, 1 * ib, ib, ib);
    assert(1 * ib - ib == 0);
    assert(ieval(Seq::<nat>::empty(), xi) == 0);
    lemma_eval_equal(vanishing_multiple(b, n), Seq::<nat>::empty(), x);
}

/// Masking changes no value on the domain: at every point `x` whose `n`-th
/// power is one, a polynomial plus any multiple of `X^n - 1` takes the value
/// of the polynomial itself.
pub proof fn lemma_masked_agrees_on_domain(p: Seq<nat>, blind: Seq<nat>, n: nat, x: nat)
    requires
        fpow(x, n) == 1,
    ensures
        peval(masked(p, blind, n), x) == peval(p, x),
{
    let xi = x as int;
    let vm = vanishing_multiple(blind, n);
    lemma_sum_value(p, vm, xi);
    lemma_vanishing_multiple_is_zero_on_domain(blind, n, x);
    lemma_eval_congruent(vm, x);
    lemma_congruent_sum(ieval(p, xi), ieval(p, xi), ieval(vm, xi), 0);
    lemma_eval_equal(masked(p, blind, n), p, x);
}

/// The value of a scaled polynomial is the scaled value.
pub proof fn lemma_scale_value(a: Seq<nat>, c: nat, x: int)
    ensures
        congruent(ieval(pscale(a, c), x), c * ieval(a, x)),
    decreases a.len(),
{
    let s = pscale(a, c);
    if a.len() > 0 {
        let t = a.skip(1);
        assert(s.skip(1) =~= pscale(t, c));
        lemma_scale_value(t, c, x);
        let ci = c as int;
        let a0 = a[0] as int;
        assert(s[0] == fmul(a[0], c));
        lemma_congruent_reduce(a0 * ci);
        lemma_congruent_product(x, x, ieval(pscale(t, c), x), ci * ieval(t, x));
        lemma_congruent_sum(s[0] as int, a0 * ci, x * ieval(pscale(t, c), x), x * (ci * ieval(t, x)));
        let it = ieval(t, x);
        assert(a0 * ci + x * (ci * it) == ci * (a0 + x * it)) by (nonlinear_arith);
    } else {
        assert(c * 0 == 0) by (nonlinear_arith);
    }
}

/// The value of two coefficient vectors laid end to end: the first, plus
/// the second times `x` to the length of the first.
pub proof fn lemma_concat_value(a: Seq<nat>, b: Seq<nat>, x: int)
    ensures
        ieval(a + b, x) == ieval(a, x) + ipow(x, a.len()) * ieval(b, x),
    decreases a.len(),
{
    if a.len() == 0 {
        assert(a + b =~= b);
        assert(1 * ieval(b, x) == ieval(b, x));
    } else {
        let t = a.skip(1);
        assert((a + b).skip(1) =~= t + b);
        lemma_concat_value(t, b, x);
        let it = ieval(t, x);
        let ib = ieval(b, x);
        let pt = ipow(x, t.len());
        assert(ipow(x, a.len()) == x * pt);
        assert(a[0] + x * (it + pt * ib) == (a[0] + x * it) + (x * pt) * ib) by (nonlinear_arith);
    }
}

/// The chunks of a quotient, recombined with the powers of `zeta^n`, take
/// at `zeta` the value of the quotient itself: a chunk that something
/// follows has exactly `n` coefficients.
pub proof fn lemma_chunks_recombine(
    low: Seq<nat>,
    mid: Seq<nat>,
    high: Seq<nat>,
    n: nat,
    zeta: nat,
)
    requires
        mid.len() == 0 || low.len() == n,
        high.len() == 0 || (low.len() == n && mid.len() == n),
    ensures
        peval(combined_chunks(low, mid, high, fpow(zeta, n)), zeta) == peval(
            low + mid + high,
            zeta,
        ),
{
    let x = zeta as int;
    let zn = fpow(zeta, n);
    let zn2 = fmul(zn, zn);
    let pn = ipow(x, n);
    let il = ieval(low, x);
    let im = ieval(mid, x);
    let ih = ieval(high, x);
    let sm = pscale(mid, zn);
    let sh = pscale(high, zn2);
    lemma_pow_congruent(zeta, n);
    lemma_scale_value(mid, zn, x);
    lemma_scale_value(high, zn2, x);
    lemma_sum_value(low, sm, x);
    lemma_sum_value(padd(low, sm), sh, x);
    lemma_congruent_product(zn as int, pn, im, im);
    lemma_congruent_product(zn as int, pn, zn as int, pn);
    lemma_congruent_reduce((zn as int) * (zn as int));
    assert(zn2 == ((zn as int) * (zn as int)) % (modulus() as int));
    lemma_congruent_product(zn2 as int, pn * pn, ih, ih);
    lemma_congruent_sum(il, il, ieval(sm, x), pn * im);
    lemma_congruent_sum(ieval(padd(low, sm), x), il + pn * im, ieval(sh, x), (pn * pn) * ih);
    lemma_concat_value(low, mid, x);
    lemma_concat_value(low + mid, high, x);
    let whole = ieval(low + mid + high, x);
    assert(whole == il + pn * im + (pn * pn) * ih) by {
        if high.len() == 0 {
            assert((pn * pn) * 0 == 0) by (nonlinear_arith);
            assert(ipow(x, (low + mid).len()) * 0 == 0) by (nonlinear_arith);
            if mid.len() == 0 {
                assert(pn * 0 == 0) by (nonlinear_arith);
                assert(ipow(x, low.len()) * 0 == 0) by (nonlinear_arith);
            }
        } else {
            lemma_pow_add(x, n, n);
            assert((low + mid).len() == n + n);
        }
    }
    lemma_eval_equal(combined_chunks(low, mid, high, zn), low + mid + high, zeta);
}

/// Powers add: `x^(a + b)` is `x^a * x^b`.
pub proof fn lemma_pow_add(x: int, a: nat, b: nat)
    ensures
        ipow(x, a + b) == ipow(x, a) * ipow(x, b),
    decreases a,
{
    if a == 0 {
        assert(1 * ipow(x, b) == ipow(x, b));
    } else {
        let k = (a - 1) as nat;
        lemma_pow_add(x, k, b);
        assert((k + b) as nat == (a + b - 1) as nat);
        let pk = ipow(x, k);
        let pb = ipow(x, b);
        assert(x * (pk * pb) == (x * pk) * pb) by (nonlinear_arith);
    }
}

/// Congruent bases have congruent powers.
pub proof fn lemma_pow_base_congruent(a: int, b: int, k: nat)
    requires
        congruent(a, b),
    ensures
        congruent(ipow(a, k), ipow(b, k)),
    decreases k,
{
    if k > 0 {
        lemma_pow_base_congruent(a, b, (k - 1) as nat);
        lemma_congruent_product(a, b, ipow(a, (k - 1) as nat), ipow(b, (k - 1) as nat));
    }
}

/// A power of a power: `(x^a)^b` is `x^(a * b)`.
pub proof fn lemma_pow_mul(x: int, a: nat, b: nat)
    ensures
        ipow(ipow(x, a), b) == ipow(x, a * b),
    decreases b,
{
    if b == 0 {
        assert(a * 0 == 0) by (nonlinear_arith);
    } else {
        let k = (b - 1) as nat;
        lemma_pow_mul(x, a, k);
        lemma_pow_add(x, a, a * k);
        assert(a + a * k == a * b) by (nonlinear_arith)
            requires
                k + 1 == b,
        ;
    }
}

/// Every power of one is one.
pub proof fn lemma_pow_one(k: nat)
    ensures
        ipow(1, k) == 1,
    decreases k,
{
    if k > 0 {
        lemma_pow_one((k - 1) as nat);
    }
}

/// Every power of a point of the domain is a point of the domain: where the
/// `n`-th power of `g` is one, so is the `n`-th power of `g^i`.
pub proof fn lemma_power_stays_on_domain(g: nat, n: nat, i: nat)
    requires
        fpow(g, n) == 1,
    ensures
        fpow(fpow(g, i), n) == 1,
{
    let gi = g as int;
    let m = modulus() as int;
    lemma_pow_congruent(fpow(g, i), n);
    lemma_pow_congruent(g, i);
    lemma_pow_base_congruent(fpow(g, i) as int, ipow(gi, i), n);
    lemma_pow_mul(gi, i, n);
    lemma_pow_mul(gi, n, i);
    assert(i * n == n * i) by (nonlinear_arith);
    lemma_pow_congruent(g, n);
    lemma_pow_base_congruent(ipow(gi, n), 1, i);
    lemma_pow_one(i);
    assert(congruent(fpow(fpow(g, i), n) as int, 1));
    if n > 0 {
        lemma_mod_bound((fpow(g, i) * fpow(fpow(g, i), (n - 1) as nat)) as int, m);
    }
    lemma_small_mod(fpow(fpow(g, i), n), modulus());
    lemma_small_mod(1, modulus());
}

/// Polynomials with the same coefficients, zeros at the high end set aside,
/// have the same value.
pub proof fn lemma_value_by_coefficients(a: Seq<nat>, b: Seq<nat>, x: int)
    requires
        forall|i: int| #[trigger] coeff(a, i) == coeff(b, i),
    ensures
        ieval(a, x) == ieval(b, x),
    decreases a.len() + b.len(),
{
    if a.len() + b.len() > 0 {
        let ta = tail(a);
        let tb = tail(b);
        assert forall|i: int| #[trigger] coeff(ta, i) == coeff(tb, i) by {
            if i >= 0 {
                assert(coeff(ta, i) == coeff(a, i + 1));
                assert(coeff(tb, i) == coeff(b, i + 1));
            }
        }
        lemma_value_by_coefficients(ta, tb, x);
        lemma_ieval_unfold(a, x);
        lemma_ieval_unfold(b, x);
        assert(coeff(a, 0) == coeff(b, 0));
    }
}

/// The polynomial is zero at every point of the domain of order `n`, that
/// is at every point whose `n`-th power is one.
pub open spec fn vanishes_on_domain(p: Seq<nat>, n: nat) -> bool {
    forall|x: nat| fpow(x, n) == 1 ==> #[trigger] peval(p, x) == 0
}

/// What `X^n - 1` divides exactly is zero on the whole domain.
pub proof fn lemma_exact_multiple_vanishes(p: Seq<nat>, q: Seq<nat>, n: nat)
    requires
        forall|i: int| #[trigger] coeff(p, i) == coeff(vanishing_multiple(q, n), i),
    ensures
        vanishes_on_domain(p, n),
{
    assert forall|x: nat| fpow(x, n) == 1 implies #[trigger] peval(p, x) == 0 by {
        lemma_value_by_coefficients(p, vanishing_multiple(q, n), x as int);
        lemma_eval_equal(p, vanishing_multiple(q, n), x);
        lemma_vanishing_multiple_is_zero_on_domain(q, n, x);
    }
}

} // verus!
