//! The kinds of creature and their fixed physical and gameplay constants.

use vstd::prelude::*;

verus! {

/// A creature's species. It is chosen when the creature is spawned and never
/// changes afterwards.
#[derive(Clone, Copy, Debug, PartialEq, Eq, Hash, Structural)]
pub enum Creature {
    Normal,
    Bouncy,
    Explosive,
    Heavy,
}

impl Default for Creature {
    fn default() -> (species: Creature)
        ensures
            species == Creature::Normal,
    {
        Creature::Normal
    }
}

impl Creature {
    /// Radius of the circular body, in length units.
    pub open spec fn spec_radius(self) -> nat {
        match self {
            Creature::Heavy => 22,
            Creature::Bouncy => 18,
            _ => 20,
        }
    }

    /// Density of the body.
    pub open spec fn spec_density(self) -> nat {
        match self {
            Creature::Heavy => 2,
            _ => 1,
        }
    }

    /// Upward impulse of a full jump.
    pub open spec fn spec_jump(self) -> nat {
        match self {
            Creature::Heavy => 300,
            Creature::Bouncy => 400,
            _ => 350,
        }
    }

    /// What this creature adds to the push along a severed link.
    pub open spec fn spec_force(self) -> nat {
        match self {
            Creature::Explosive => 250,
            _ => 150,
        }
    }

    /// Rate at which rolling input changes the angular velocity.
    pub open spec fn spec_speed(self) -> nat {
        120
    }

    /// Restitution of the body, in hundredths.
    pub open spec fn spec_bounciness(self) -> nat {
        match self {
            Creature::Bouncy => 80,
            _ => 40,
        }
    }

    /// Body colour as red, green and blue, each in hundredths of full
    /// intensity.
    pub open spec fn spec_color(self) -> (nat, nat, nat) {
        match self {
            Creature::Normal => (60, 0, 80),
            Creature::Bouncy => (0, 80, 0),
            Creature::Explosive => (80, 30, 0),
            Creature::Heavy => (10, 10, 10),
        }
    }

    /// Body colour as red, green and blue, each in hundredths of full
    /// intensity.
    pub fn color(self) -> (rgb: (u8, u8, u8))
        ensures
            (rgb.0 as nat, rgb.1 as nat, rgb.2 as nat) == self.spec_color(),
    {
        match self {
            Creature::Normal => (60, 0, 80),
            Creature::Bouncy => (0, 80, 0),
            Creature::Explosive => (80, 30, 0),
            Creature::Heavy => (10, 10, 10),
        }
    }

    /// Radius of the circular body, in length units.
    pub fn radius(self) -> (r: u32)
        ensures
            r == self.spec_radius(),
    {
        match self {
            Creature::Heavy => 22,
            Creature::Bouncy => 18,
            _ => 20,
        }
    }

    /// Density of the body.
    pub fn density(self) -> (d: u32)
        ensures
            d == self.spec_density(),
    {
        match self {
            Creature::Heavy => 2,
            _ => 1,
        }
    }

    /// Upward impulse of a full jump.
    pub fn jump(self) -> (j: u32)
        ensures
            j == self.spec_jump(),
    {
        match self {
            Creature::Heavy => 300,
            Creature::Bouncy => 400,
            _ => 350,
        }
    }

    /// What this creature adds to the push along a severed link.
    pub fn force(self) -> (f: u32)
        ensures
            f == self.spec_force(),
    {
        match self {
            Creature::Explosive => 250,
            _ => 150,
        }
    }

    /// Rate at which rolling input changes the angular velocity.
    pub fn speed(self) -> (s: u32)
        ensures
            s == self.spec_speed(),
    {
        120
    }

    /// Restitution of the body, in hundredths.
    pub fn bounciness(self) -> (b: u32)
        ensures
            b == self.spec_bounciness(),
    {
        match self {
            Creature::Bouncy => 80,
            _ => 40,
        }
    }
}

} // verus!
