//! The catalogue of time-stepping schemes.
//!
//! Orbits are integrated for millions of steps, so what matters is not the
//! error of one step but whether the error accumulates. *Symplectic* schemes
//! keep the energy error bounded and oscillating; that is why a second-order
//! symplectic scheme is the default.

use vstd::prelude::*;

verus! {

/// The available time-stepping schemes.
#[derive(Debug, Clone, Copy, PartialEq, Eq, Structural, Hash)]
pub enum Integrator {
    /// Semi-implicit (symplectic) Euler. First order.
    SemiImplicitEuler,
    /// Velocity Verlet, in kick–drift–kick form. Second order, symplectic,
    /// time-reversible. Two force evaluations per step. The default.
    VelocityVerlet,
    /// Yoshida's fourth-order symplectic composition of three Verlet steps.
    Yoshida4,
    /// Classical fourth-order Runge–Kutta. Not symplectic.
    Rk4,
}

impl Default for Integrator {
    /// Velocity Verlet: second order, symplectic and cheap.
    fn default() -> (integrator: Integrator)
        ensures
            integrator == Integrator::VelocityVerlet,
    {
        Integrator::VelocityVerlet
    }
}

/// Position of each scheme in [`Integrator::ALL`].
pub open spec fn rank(integrator: Integrator) -> int {
    match integrator {
        Integrator::SemiImplicitEuler => 0,
        Integrator::VelocityVerlet => 1,
        Integrator::Yoshida4 => 2,
        Integrator::Rk4 => 3,
    }
}

/// Every scheme, in increasing order of accuracy.
pub open spec fn all_schemes() -> Seq<Integrator> {
    seq![Integrator::SemiImplicitEuler, Integrator::VelocityVerlet, Integrator::Yoshida4, Integrator::Rk4]
}

/// The scheme that follows `integrator` when cycling through [`Integrator::ALL`],
/// wrapping round from the last to the first.
pub open spec fn next_scheme(integrator: Integrator) -> Integrator {
    all_schemes()[(rank(integrator) + 1) % 4]
}

/// `next_scheme` applied `k` times.
pub open spec fn cycled(integrator: Integrator, k: nat) -> Integrator
    decreases k,
{
    if k == 0 {
        integrator
    } else {
        next_scheme(cycled(integrator, (k - 1) as nat))
    }
}

/// Short human-readable name.
pub open spec fn scheme_name(integrator: Integrator) -> Seq<char> {
    match integrator {
        Integrator::SemiImplicitEuler => "Semi-implicit Euler"@,
        Integrator::VelocityVerlet => "Velocity Verlet"@,
        Integrator::Yoshida4 => "Yoshida 4"@,
        Integrator::Rk4 => "Runge-Kutta 4"@,
    }
}

/// Order of the local truncation error.
pub open spec fn scheme_order(integrator: Integrator) -> u32 {
    match integrator {
        Integrator::SemiImplicitEuler => 1,
        Integrator::VelocityVerlet => 2,
        Integrator::Yoshida4 => 4,
        Integrator::Rk4 => 4,
    }
}

/// Number of force evaluations per step.
pub open spec fn scheme_force_evaluations(integrator: Integrator) -> u32 {
    match integrator {
        Integrator::SemiImplicitEuler => 1,
        Integrator::VelocityVerlet => 2,
        Integrator::Yoshida4 => 6,
        Integrator::Rk4 => 4,
    }
}

impl Integrator {
    /// Every variant, in increasing order of accuracy.
    pub const ALL: [Integrator; 4] = [
        Integrator::SemiImplicitEuler,
        Integrator::VelocityVerlet,
        Integrator::Yoshida4,
        Integrator::Rk4,
    ];

    /// Short human-readable name.
    pub fn name(self) -> (name: &'static str)
        ensures
            name@ == scheme_name(self),
    {
        match self {
            Integrator::SemiImplicitEuler => "Semi-implicit Euler",
            Integrator::VelocityVerlet => "Velocity Verlet",
            Integrator::Yoshida4 => "Yoshida 4",
            Integrator::Rk4 => "Runge-Kutta 4",
        }
    }

    /// Order of the local truncation error.
    pub fn order(self) -> (order: u32)
        ensures
            order == scheme_order(self),
    {
        match self {
            Integrator::SemiImplicitEuler => 1,
            Integrator::VelocityVerlet => 2,
            Integrator::Yoshida4 | Integrator::Rk4 => 4,
        }
    }

    /// Whether the scheme preserves phase-space volume, and therefore keeps the
    /// energy error bounded rather than drifting.
    pub fn is_symplectic(self) -> (symplectic: bool)
        ensures
            symplectic <==> self != Integrator::Rk4,
    {
        !matches!(self, Integrator::Rk4)
    }

    /// Number of force evaluations per step.
    pub fn force_evaluations(self) -> (evaluations: u32)
        ensures
            evaluations == scheme_force_evaluations(self),
    {
        match self {
            Integrator::SemiImplicitEuler => 1,
            Integrator::VelocityVerlet => 2,
            Integrator::Yoshida4 => 6,
            Integrator::Rk4 => 4,
        }
    }
}

/// The scheme after `current` in [`Integrator::ALL`], wrapping round to the
/// first after the last: what the "cycle integrator" key does.
pub fn cycle_integrator(current: Integrator) -> (next: Integrator)
    ensures
        next == next_scheme(current),
{
    let all = Integrator::ALL;
    assert(all@ == all_schemes());
    let mut position: usize = 0;
    while position < all.len() && all[position] != current
        invariant
            all@ == all_schemes(),
            position <= 4,
            forall|k: int| 0 <= k < position ==> all@[k] != current,
        decreases 4 - position,
    {
        position += 1;
    }
    // Every scheme is listed, so the search stops on it.
    assert(all@[rank(current)] == current);
    assert(position == rank(current));
    all[(position + 1) % all.len()]
}

/// Cycling moves one place along [`Integrator::ALL`], from its last entry back
/// to its first.
pub proof fn lemma_cycle_follows_the_catalogue(i: int)
    requires
        0 <= i < 4,
    ensures
        next_scheme(Integrator::ALL@[i]) == Integrator::ALL@[(i + 1) % 4],
{
}

proof fn lemma_rank_of_cycled(start: Integrator, k: nat)
    ensures
        rank(cycled(start, k)) == (rank(start) + k) % 4,
    decreases k,
{
    if k > 0 {
        lemma_rank_of_cycled(start, (k - 1) as nat);
    }
}

/// Cycling through the schemes visits each of them once and returns to the
/// start after as many steps as there are schemes: the four schemes met on the
/// way are pairwise distinct, so every scheme is met.
pub proof fn lemma_cycle_visits_every_scheme(start: Integrator)
    ensures
        cycled(start, 4) == start,
        forall|k1: nat, k2: nat|
            k1 < k2 < 4 ==> #[trigger] cycled(start, k1) != #[trigger] cycled(start, k2),
{
    lemma_rank_of_cycled(start, 4);
    assert forall|k1: nat, k2: nat| k1 < k2 < 4 implies #[trigger] cycled(start, k1) != #[trigger] cycled(start, k2) by {
        lemma_rank_of_cycled(start, k1);
        lemma_rank_of_cycled(start, k2);
    }
}

} // verus!
