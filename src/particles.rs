//! Particle state store: dense arrays indexed by particle identity.
//!
//! The store is generic over the vector type `V` (positions, velocities,
//! forces) and the scalar type `S` (densities, pressures), so the numeric
//! representation is chosen by the user of the library.
use vstd::prelude::*;

verus! {

/// A vector of `n` copies of `value`.
fn filled<T: Copy>(value: T, n: usize) -> (r: Vec<T>)
    ensures
        r@ == Seq::new(n as nat, |_i: int| value),
{
    let mut r: Vec<T> = Vec::new();
    let mut k: usize = 0;
    while k < n
        invariant
            k <= n,
            r@ == Seq::new(k as nat, |_i: int| value),
        decreases n - k,
    {
        r.push(value);
        proof {
            assert(r@ =~= Seq::new((k + 1) as nat, |_i: int| value));
        }
        k = k + 1;
    }
    r
}

/// Per-particle state; index `i` of every array belongs to particle `i`.
pub struct ParticleSet<V, S> {
    pub positions: Vec<V>,
    pub velocities: Vec<V>,
    /// Recomputed every tick.
    pub forces: Vec<V>,
    /// Recomputed every tick.
    pub densities: Vec<S>,
    /// Recomputed every tick, from the densities.
    pub pressures: Vec<S>,
}

impl<V: Copy, S: Copy> ParticleSet<V, S> {
    /// Number of particles.
    pub open spec fn spec_len(&self) -> nat {
        self.positions@.len()
    }

    /// All five arrays have one entry per particle.
    pub open spec fn wf(&self) -> bool {
        &&& self.velocities@.len() == self.positions@.len()
        &&& self.forces@.len() == self.positions@.len()
        &&& self.densities@.len() == self.positions@.len()
        &&& self.pressures@.len() == self.positions@.len()
    }

    /// Every particle is at rest with its derived fields cleared: velocity and
    /// force are `zero_v`, density and pressure are `zero_s`.
    pub open spec fn cleared(&self, zero_v: V, zero_s: S) -> bool {
        forall|i: int|
            0 <= i < self.positions@.len() ==> {
                &&& #[trigger] self.velocities@[i] == zero_v
                &&& self.forces@[i] == zero_v
                &&& self.densities@[i] == zero_s
                &&& self.pressures@[i] == zero_s
            }
    }

    /// A particle set with the given positions, at rest, derived fields cleared.
    pub fn new(positions: Vec<V>, zero_v: V, zero_s: S) -> (r: Self)
        ensures
            r.wf(),
            r.positions@ == positions@,
            r.cleared(zero_v, zero_s),
    {
        let n = positions.len();
        ParticleSet {
            positions,
            velocities: filled(zero_v, n),
            forces: filled(zero_v, n),
            densities: filled(zero_s, n),
            pressures: filled(zero_s, n),
        }
    }

    /// Replaces the whole state: the particles take the given positions, at
    /// rest, with derived fields cleared.
    pub fn reset(&mut self, positions: Vec<V>, zero_v: V, zero_s: S)
        ensures
            final(self).wf(),
            final(self).positions@ == positions@,
            final(self).cleared(zero_v, zero_s),
    {
        *self = ParticleSet::new(positions, zero_v, zero_s);
    }

    /// Number of particles.
    pub fn len(&self) -> (r: usize)
        ensures
            r == self.spec_len(),
    {
        self.positions.len()
    }
}

} // verus!
