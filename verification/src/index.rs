//! The preprocessed circuit that a proof is made against, as plain values.

use vstd::prelude::*;
use vstd::arithmetic::power2::pow2;
use vstd::arithmetic::power2::lemma2_to64;
use vstd::arithmetic::power2::lemma_pow2_pos;
use vstd::arithmetic::power2::lemma_pow2_unfold;
use vstd::arithmetic::power2::lemma_pow2_strictly_increases;
use crate::field::Scalar;
use crate::field::all_wf;
use crate::field::fpow;
use crate::poly::domain_generator;
use crate::poly::generator_of;

verus! {

/// The ways in which proving fails.
#[derive(Clone, Copy, Debug, PartialEq, Eq, Structural)]
pub enum ProofError {
    /// The witness does not have three entries per gate.
    WitnessCsInconsistent,
    /// The permutation's grand product does not close to one.
    ProofCreation,
    /// A division that must be exact left a remainder.
    PolyDivision,
}

/// The largest power of two for which the field has a subgroup of that order
/// is two to this exponent.
pub const MAX_LOG_DOMAIN: u32 = 28;

/// `n` is the order of a multiplicative subgroup that the field supports
/// transforms over: a power of two, at most two to the twenty-eighth.
pub open spec fn is_domain_size(n: nat) -> bool {
    exists|k: nat| k <= 28 && n == #[trigger] pow2(k)
}

/// Decides `is_domain_size`.
pub fn domain_size_ok(n: usize) -> (r: bool)
    ensures
        r == is_domain_size(n as nat),
{
    let mut m: usize = 1;
    let mut k: u32 = 0;
    proof {
        lemma2_to64();
    }
    while k < MAX_LOG_DOMAIN
        invariant
            k <= 28,
            m == pow2(k as nat),
            m <= 0x1000_0000,
            forall|j: nat| j < k ==> n != #[trigger] pow2(j),
        decreases 28 - k,
    {
        if m == n {
            return true;
        }
        proof {
            lemma_pow2_unfold((k + 1) as nat);
            lemma2_to64();
            if k + 1 < 28 {
                lemma_pow2_strictly_increases((k + 1) as nat, 28);
            }
        }
        m = m * 2;
        k = k + 1;
    }
    m == n
}

/// Every domain size is at least one and at most two to the twenty-eighth.
pub proof fn lemma_domain_size_bounds(n: nat)
    requires
        is_domain_size(n),
    ensures
        1 <= n <= 0x1000_0000,
{
    let k = choose|k: nat| k <= 28 && n == #[trigger] pow2(k);
    lemma2_to64();
    lemma_pow2_pos(k);
    if k < 28 {
        lemma_pow2_strictly_increases(k, 28);
    }
}

/// Decides whether every scalar of the vector is in canonical form.
pub fn all_canonical(v: &Vec<Scalar>) -> (r: bool)
    ensures
        r == all_wf(v@),
{
    let mut i: usize = 0;
    while i < v.len()
        invariant
            i <= v@.len(),
            forall|j: int| 0 <= j < i ==> (#[trigger] v@[j]).wf(),
        decreases v@.len() - i,
    {
        if !v[i].is_canonical() {
            return false;
        }
        i = i + 1;
    }
    true
}

/// One row of the circuit: where in the flat witness its three wires read.
#[derive(Clone, Copy, Debug, PartialEq, Eq, Structural)]
pub struct Gate {
    pub l: usize,
    pub r: usize,
    pub o: usize,
}

/// One of the three wire columns.
#[derive(Clone, Copy, Debug, PartialEq, Eq, Structural)]
pub enum Column {
    Left,
    Right,
    Output,
}

impl Gate {
    /// The wire of this gate in the given column.
    pub open spec fn wire(self, c: Column) -> usize {
        match c {
            Column::Left => self.l,
            Column::Right => self.r,
            Column::Output => self.o,
        }
    }

    /// The wire of this gate in the given column.
    pub fn wire_of(&self, c: Column) -> (r: usize)
        ensures
            r == self.wire(c),
    {
        match c {
            Column::Left => self.l,
            Column::Right => self.r,
            Column::Output => self.o,
        }
    }
}

/// The circuit after preprocessing. Polynomials are coefficient vectors,
/// lowest degree first.
pub struct ConstraintSystem {
    /// The number of gates, which is the order of the domain.
    pub n: usize,
    /// How many leading witness entries are public.
    pub public: usize,
    pub gates: Vec<Gate>,
    /// The three permutation polynomials, as values on the domain.
    pub sigmal1: Vec<Scalar>,
    pub sigmal2: Vec<Scalar>,
    pub sigmal3: Vec<Scalar>,
    /// The three permutation polynomials, as coefficients.
    pub sigmam1: Vec<Scalar>,
    pub sigmam2: Vec<Scalar>,
    pub sigmam3: Vec<Scalar>,
    /// The identity permutation: the points of the domain.
    pub sid: Vec<Scalar>,
    /// The tags of the right and output columns.
    pub r: Scalar,
    pub o: Scalar,
    /// The selector polynomials, as coefficients.
    pub qm: Vec<Scalar>,
    pub ql: Vec<Scalar>,
    pub qr: Vec<Scalar>,
    pub qo: Vec<Scalar>,
    pub qc: Vec<Scalar>,
    /// The generator of the domain, as the transforms use it.
    pub group_gen: Scalar,
}

impl ConstraintSystem {
    /// The shape that every function of the prover relies on.
    pub open spec fn wf(&self) -> bool {
        &&& is_domain_size(self.n as nat)
        &&& self.public <= self.n
        &&& self.gates@.len() == self.n
        &&& forall|i: int|
            0 <= i < self.gates@.len() ==> {
                let g = #[trigger] self.gates@[i];
                g.l < 3 * self.n && g.r < 3 * self.n && g.o < 3 * self.n
            }
        &&& self.sigmal1@.len() == self.n
        &&& self.sigmal2@.len() == self.n
        &&& self.sigmal3@.len() == self.n
        &&& self.sid@.len() == self.n
        &&& self.sigmam1@.len() <= self.n
        &&& self.sigmam2@.len() <= self.n
        &&& self.sigmam3@.len() <= self.n
        &&& self.qm@.len() <= self.n
        &&& self.ql@.len() <= self.n
        &&& self.qr@.len() <= self.n
        &&& self.qo@.len() <= self.n
        &&& self.qc@.len() <= self.n
        &&& all_wf(self.sigmal1@)
        &&& all_wf(self.sigmal2@)
        &&& all_wf(self.sigmal3@)
        &&& all_wf(self.sigmam1@)
        &&& all_wf(self.sigmam2@)
        &&& all_wf(self.sigmam3@)
        &&& all_wf(self.sid@)
        &&& self.r.wf()
        &&& self.o.wf()
        &&& all_wf(self.qm@)
        &&& all_wf(self.ql@)
        &&& all_wf(self.qr@)
        &&& all_wf(self.qo@)
        &&& all_wf(self.qc@)
        &&& self.group_gen.wf()
        &&& self.group_gen.value() == generator_of(self.n as nat)
        &&& fpow(self.group_gen.value(), self.n as nat) == 1
    }

    /// Every wire of every gate reads inside a witness of `3n` entries.
    pub open spec fn wires_in_range(&self) -> bool {
        forall|i: int|
            0 <= i < self.gates@.len() ==> {
                let g = #[trigger] self.gates@[i];
                g.l < 3 * self.n && g.r < 3 * self.n && g.o < 3 * self.n
            }
    }

    /// Decides `wires_in_range`.
    pub fn check_wires(&self) -> (r: bool)
        requires
            self.n <= 0x1000_0000,
        ensures
            r == self.wires_in_range(),
    {
        let bound = 3 * self.n;
        let mut i: usize = 0;
        while i < self.gates.len()
            invariant
                bound == 3 * self.n,
                i <= self.gates@.len(),
                forall|j: int|
                    0 <= j < i ==> {
                        let g = #[trigger] self.gates@[j];
                        g.l < bound && g.r < bound && g.o < bound
                    },
            decreases self.gates@.len() - i,
        {
            let g = self.gates[i];
            if g.l >= bound || g.r >= bound || g.o >= bound {
                assert(self.gates@[i as int] == g);
                return false;
            }
            i = i + 1;
        }
        true
    }

    /// Decides `wf`: whether the circuit has the shape that the prover
    /// relies on.
    pub fn validate(&self) -> (r: bool)
        ensures
            r == self.wf(),
    {
        if !domain_size_ok(self.n) {
            return false;
        }
        proof {
            lemma_domain_size_bounds(self.n as nat);
        }
        let n = self.n;
        self.public <= n && self.gates.len() == n && self.check_wires() && self.sigmal1.len() == n
            && self.sigmal2.len() == n && self.sigmal3.len() == n && self.sid.len() == n
            && self.sigmam1.len() <= n && self.sigmam2.len() <= n && self.sigmam3.len() <= n
            && self.qm.len() <= n && self.ql.len() <= n && self.qr.len() <= n && self.qo.len() <= n
            && self.qc.len() <= n && all_canonical(&self.sigmal1) && all_canonical(&self.sigmal2)
            && all_canonical(&self.sigmal3) && all_canonical(&self.sigmam1) && all_canonical(
            &self.sigmam2,
        ) && all_canonical(&self.sigmam3) && all_canonical(&self.sid) && self.r.is_canonical()
            && self.o.is_canonical() && all_canonical(&self.qm) && all_canonical(&self.ql)
            && all_canonical(&self.qr) && all_canonical(&self.qo) && all_canonical(&self.qc)
            && self.group_gen.is_canonical() && self.group_gen.same(domain_generator(n))
    }
}

} // verus!
