//! Decisions the driver takes from user input before a tick: which reset, if
//! any, to perform, and how the pointer acts on the fluid.
use vstd::prelude::*;

verus! {

/// The two ways of refilling the particle set.
#[derive(Clone, Copy, Debug, PartialEq, Eq, Structural)]
pub enum ResetKind {
    /// Uniform random scatter inside an inset of the domain.
    Random,
    /// Regular near-square block centred at the origin.
    Grid,
}

/// The reset asked for by the random-reset and grid-reset keys; the random reset
/// wins when both are pressed.
pub fn reset_request(random_pressed: bool, grid_pressed: bool) -> (r: Option<ResetKind>)
    ensures
        r == (if random_pressed {
            Some(ResetKind::Random)
        } else if grid_pressed {
            Some(ResetKind::Grid)
        } else {
            None
        }),
{
    if random_pressed {
        Some(ResetKind::Random)
    } else if grid_pressed {
        Some(ResetKind::Grid)
    } else {
        None
    }
}

/// How the pointer acts on nearby particles during a tick.
#[derive(Clone, Copy, Debug, PartialEq, Eq, Structural)]
pub enum Interaction {
    /// No interaction force.
    Idle,
    /// Particles are pulled toward the pointer.
    Attract,
    /// Particles are pushed away from the pointer.
    Repel,
}

impl Interaction {
    /// Sign of the interaction force: toward the pointer, away from it, or none.
    pub open spec fn spec_sign(self) -> int {
        match self {
            Interaction::Idle => 0,
            Interaction::Attract => 1,
            Interaction::Repel => -1,
        }
    }

    /// The interaction for this tick. Without a pointer position in the world
    /// there is none; otherwise the primary button attracts and, when it is up,
    /// the secondary button repels.
    pub fn from_pointer(has_position: bool, primary: bool, secondary: bool) -> (r: Self)
        ensures
            r == (if !has_position {
                Interaction::Idle
            } else if primary {
                Interaction::Attract
            } else if secondary {
                Interaction::Repel
            } else {
                Interaction::Idle
            }),
    {
        if !has_position {
            Interaction::Idle
        } else if primary {
            Interaction::Attract
        } else if secondary {
            Interaction::Repel
        } else {
            Interaction::Idle
        }
    }

    /// Sign of the interaction force: `1` attracts, `-1` repels, `0` is none.
    pub fn sign(&self) -> (r: i8)
        ensures
            r as int == self.spec_sign(),
    {
        match self {
            Interaction::Idle => 0,
            Interaction::Attract => 1,
            Interaction::Repel => -1,
        }
    }
}

} // verus!
