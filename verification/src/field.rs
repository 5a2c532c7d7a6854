//! Scalars of the BN254 scalar field, held as four little-endian 64-bit limbs
//! in canonical form, with arithmetic delegated to `ark_ff`.

use vstd::prelude::*;
use ark_bn254::Fr;
use ark_ff::BigInt;
use ark_ff::Field;
use ark_ff::PrimeField;
use ark_ff::UniformRand;

verus! {

/// The weight of one limb.
pub open spec fn radix() -> nat {
    0x1_0000_0000_0000_0000
}

/// The order of the scalar field.
pub open spec fn modulus() -> nat {
    0x43e1f593f0000001 + 0x2833e84879b97091 * radix() + 0xb85045b68181585d * radix() * radix()
        + 0x30644e72e131a029 * radix() * radix() * radix()
}

/// Addition in the field, on canonical representatives.
pub open spec fn fadd(a: nat, b: nat) -> nat {
    (a + b) % modulus()
}

/// Subtraction in the field, on canonical representatives.
pub open spec fn fsub(a: nat, b: nat) -> nat {
    ((a + modulus() - b) % (modulus() as int)) as nat
}

/// Multiplication in the field, on canonical representatives.
pub open spec fn fmul(a: nat, b: nat) -> nat {
    (a * b) % modulus()
}

/// `x` is a multiplicative inverse of `a`.
pub open spec fn is_inverse(a: nat, x: nat) -> bool {
    x < modulus() && fmul(a, x) == 1
}

/// The multiplicative inverse of `a`, and zero where `a` has none.
pub open spec fn finv(a: nat) -> nat {
    if exists|x: nat| is_inverse(a, x) {
        choose|x: nat| is_inverse(a, x)
    } else {
        0
    }
}

/// `a` raised to the power `e` in the field.
pub open spec fn fpow(a: nat, e: nat) -> nat
    decreases e,
{
    if e == 0 {
        1
    } else {
        fmul(a, fpow(a, (e - 1) as nat))
    }
}

/// A field element as four little-endian limbs.
#[derive(Clone, Copy, Debug, PartialEq, Eq)]
pub struct Scalar {
    pub limbs: [u64; 4],
}

/// The canonical representatives of a sequence of scalars.
pub open spec fn values(s: Seq<Scalar>) -> Seq<nat> {
    Seq::new(s.len(), |i: int| s[i].value())
}

/// Every scalar of the sequence is in canonical form.
pub open spec fn all_wf(s: Seq<Scalar>) -> bool {
    forall|i: int| 0 <= i < s.len() ==> (#[trigger] s[i]).wf()
}

impl Scalar {
    /// The integer that the limbs spell.
    pub open spec fn value(self) -> nat {
        self.limbs[0] as nat + self.limbs[1] as nat * radix() + self.limbs[2] as nat * radix()
            * radix() + self.limbs[3] as nat * radix() * radix() * radix()
    }

    /// The limbs spell a canonical representative.
    pub open spec fn wf(self) -> bool {
        self.value() < modulus()
    }

    /// The zero of the field.
    pub fn zero() -> (r: Scalar)
        ensures
            r.wf(),
            r.value() == 0,
    {
        Scalar { limbs: [0, 0, 0, 0] }
    }

    /// The one of the field.
    pub fn one() -> (r: Scalar)
        ensures
            r.wf(),
            r.value() == 1,
    {
        Scalar { limbs: [1, 0, 0, 0] }
    }

    /// The field element of a small integer.
    pub fn from_u64(x: u64) -> (r: Scalar)
        ensures
            r.wf(),
            r.value() == x,
    {
        Scalar { limbs: [x, 0, 0, 0] }
    }

    /// Tells whether the limbs spell a canonical representative.
    pub fn is_canonical(&self) -> (r: bool)
        ensures
            r == self.wf(),
    {
        if self.limbs[3] != 0x30644e72e131a029 {
            self.limbs[3] < 0x30644e72e131a029
        } else if self.limbs[2] != 0xb85045b68181585d {
            self.limbs[2] < 0xb85045b68181585d
        } else if self.limbs[1] != 0x2833e84879b97091 {
            self.limbs[1] < 0x2833e84879b97091
        } else {
            self.limbs[0] < 0x43e1f593f0000001
        }
    }

    /// Tells whether this is the zero of the field.
    pub fn is_zero(&self) -> (r: bool)
        ensures
            r == (self.value() == 0),
    {
        self.limbs[0] == 0 && self.limbs[1] == 0 && self.limbs[2] == 0 && self.limbs[3] == 0
    }

    /// Tells whether this is the one of the field.
    pub fn is_one(&self) -> (r: bool)
        ensures
            r == (self.value() == 1),
    {
        self.limbs[0] == 1 && self.limbs[1] == 0 && self.limbs[2] == 0 && self.limbs[3] == 0
    }

    /// Tells whether two canonical scalars are the same field element.
    pub fn same(self, other: Scalar) -> (r: bool)
        requires
            self.wf(),
            other.wf(),
        ensures
            r == (self.value() == other.value()),
    {
        proof {
            lemma_difference_is_zero(self.value(), other.value());
        }
        field_sub(self, other).is_zero()
    }

    /// The sum in the field.
    pub fn plus(self, other: Scalar) -> (r: Scalar)
        requires
            self.wf(),
            other.wf(),
        ensures
            r.wf(),
            r.value() == fadd(self.value(), other.value()),
    {
        field_add(self, other)
    }

    /// The difference in the field.
    pub fn minus(self, other: Scalar) -> (r: Scalar)
        requires
            self.wf(),
            other.wf(),
        ensures
            r.wf(),
            r.value() == fsub(self.value(), other.value()),
    {
        field_sub(self, other)
    }

    /// The product in the field.
    pub fn times(self, other: Scalar) -> (r: Scalar)
        requires
            self.wf(),
            other.wf(),
        ensures
            r.wf(),
            r.value() == fmul(self.value(), other.value()),
    {
        field_mul(self, other)
    }

    /// The additive inverse.
    pub fn negated(self) -> (r: Scalar)
        requires
            self.wf(),
        ensures
            r.wf(),
            r.value() == fsub(0, self.value()),
    {
        field_sub(Scalar::zero(), self)
    }

    /// The inverse of a non-zero scalar, and `None` for zero.
    pub fn inverse(self) -> (r: Option<Scalar>)
        requires
            self.wf(),
        ensures
            r is None <==> self.value() == 0,
            r matches Some(x) ==> x.wf() && x.value() == finv(self.value()) && is_inverse(
                self.value(),
                x.value(),
            ),
    {
        if self.is_zero() {
            None
        } else {
            let mut v: Vec<Scalar> = Vec::new();
            v.push(self);
            field_batch_inversion(&mut v);
            Some(v[0])
        }
    }

    /// This scalar raised to the power `e`.
    pub fn power(self, e: u64) -> (r: Scalar)
        requires
            self.wf(),
        ensures
            r.wf(),
            r.value() == fpow(self.value(), e as nat),
    {
        field_pow(self, e)
    }
}

/// The difference of two canonical representatives is zero exactly when
/// they are the same.
pub proof fn lemma_difference_is_zero(a: nat, b: nat)
    requires
        a < modulus(),
        b < modulus(),
    ensures
        (fsub(a, b) == 0) == (a == b),
{
    let m = modulus() as int;
    if a == b {
        vstd::arithmetic::div_mod::lemma_mod_self_0(m);
    } else if a > b {
        vstd::arithmetic::div_mod::lemma_mod_add_multiples_vanish(a - b, m);
        vstd::arithmetic::div_mod::lemma_small_mod((a - b) as nat, modulus());
        assert(a + m - b == m + (a - b));
    } else {
        vstd::arithmetic::div_mod::lemma_small_mod((a + m - b) as nat, modulus());
    }
}

/// Calls `+` of `ark_bn254::Fr`: the sum of the two elements, reduced modulo
/// the field's order.
#[verifier::external_body]
pub(crate) fn field_add(a: Scalar, b: Scalar) -> (r: Scalar)
    requires
        a.wf(),
        b.wf(),
    ensures
        r.wf(),
        r.value() == fadd(a.value(), b.value()),
{
    let x = Fr::from(BigInt(a.limbs));
    let y = Fr::from(BigInt(b.limbs));
    Scalar { limbs: (x + y).into_bigint().0 }
}

/// Calls `-` of `ark_bn254::Fr`: the difference of the two elements, reduced
/// modulo the field's order.
#[verifier::external_body]
pub(crate) fn field_sub(a: Scalar, b: Scalar) -> (r: Scalar)
    requires
        a.wf(),
        b.wf(),
    ensures
        r.wf(),
        r.value() == fsub(a.value(), b.value()),
{
    let x = Fr::from(BigInt(a.limbs));
    let y = Fr::from(BigInt(b.limbs));
    Scalar { limbs: (x - y).into_bigint().0 }
}

/// Calls `*` of `ark_bn254::Fr`: the product of the two elements, reduced
/// modulo the field's order.
#[verifier::external_body]
pub(crate) fn field_mul(a: Scalar, b: Scalar) -> (r: Scalar)
    requires
        a.wf(),
        b.wf(),
    ensures
        r.wf(),
        r.value() == fmul(a.value(), b.value()),
{
    let x = Fr::from(BigInt(a.limbs));
    let y = Fr::from(BigInt(b.limbs));
    Scalar { limbs: (x * y).into_bigint().0 }
}

/// Calls `ark_ff::Field::pow` with a one-limb exponent: the element raised to
/// that power.
#[verifier::external_body]
pub(crate) fn field_pow(a: Scalar, e: u64) -> (r: Scalar)
    requires
        a.wf(),
    ensures
        r.wf(),
        r.value() == fpow(a.value(), e as nat),
{
    let x = Fr::from(BigInt(a.limbs));
    Scalar { limbs: x.pow([e]).into_bigint().0 }
}

/// Calls `ark_ff::batch_inversion`: every non-zero element is replaced by its
/// multiplicative inverse, and every zero is left as it is.
#[verifier::external_body]
pub(crate) fn field_batch_inversion(v: &mut Vec<Scalar>)
    requires
        all_wf(old(v)@),
    ensures
        final(v)@.len() == old(v)@.len(),
        all_wf(final(v)@),
        forall|i: int|
            0 <= i < old(v)@.len() ==> (#[trigger] final(v)@[i]).value() == finv(
                old(v)@[i].value(),
            ),
        forall|i: int|
            0 <= i < old(v)@.len() && old(v)@[i].value() != 0 ==> is_inverse(
                old(v)@[i].value(),
                (#[trigger] final(v)@[i]).value(),
            ),
{
    let mut w: Vec<Fr> = v.iter().map(|s| BigInt(s.limbs).into()).collect();
    ark_ff::batch_inversion(&mut w);
    *v = w.iter().map(|x| Scalar { limbs: x.into_bigint().0 }).collect();
}

/// Calls `ark_ff::UniformRand::rand` on the operating system's generator
/// (`rand_core::OsRng`): some canonical scalar.
#[verifier::external_body]
pub(crate) fn field_random() -> (r: Scalar)
    ensures
        r.wf(),
{
    Scalar { limbs: Fr::rand(&mut rand_core::OsRng).into_bigint().0 }
}

} // verus!
