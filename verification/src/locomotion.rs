//! Rolling and jumping: what player input does to the creatures that are
//! `Controlled`, and how ground contact gates it.
//!
//! Angular velocities are in millionths of a radian per second and elapsed
//! time is in microseconds, so that the change of velocity over a tick is a
//! whole number. Jump impulses are in hundredths, so that the hop of an
//! airborne creature is a whole number too.

use vstd::prelude::*;
use crate::model::ColonyView;
use crate::species::Creature;

verus! {

/// Largest magnitude of the angular velocity that rolling leaves behind, in
/// millionths of a radian per second.
pub const MAX_SPIN_MICRO: i64 = 15_000_000;

/// The direction in which the player rolls the creatures.
#[derive(Clone, Copy, Debug, PartialEq, Eq, Structural)]
pub enum Roll {
    /// Counter-clockwise: the angular velocity rises.
    Left,
    /// Clockwise: the angular velocity falls.
    Right,
}

/// A jump of one creature: the upward impulse to add, in hundredths.
#[derive(Clone, Copy, Debug, PartialEq, Eq, Structural)]
pub struct Hop {
    pub creature: u64,
    pub impulse_hundredths: u32,
}

/// A roll of one creature: the change of its angular velocity, in millionths
/// of a radian per second, before the limit is applied.
#[derive(Clone, Copy, Debug, PartialEq, Eq, Structural)]
pub struct Turn {
    pub creature: u64,
    pub change_micro: i64,
}

/// The roll that the two direction keys ask for: none where both or neither
/// is held.
pub open spec fn roll_of_keys(left: bool, right: bool) -> Option<Roll> {
    if left && !right {
        Some(Roll::Left)
    } else if right && !left {
        Some(Roll::Right)
    } else {
        None
    }
}

/// Upward impulse of a jump, in hundredths: the species' full jump for a
/// grounded creature, a twentieth of it for one in the air.
pub open spec fn hop_impulse(species: Creature, grounded: bool) -> nat {
    if grounded {
        species.spec_jump() * 100
    } else {
        species.spec_jump() * 5
    }
}

/// Change of angular velocity over `elapsed_micro` microseconds of rolling:
/// at the species' full rate for a grounded creature, at half of it for one
/// in the air; upwards for a roll to the left, downwards for one to the
/// right.
pub open spec fn turn_change(roll: Roll, species: Creature, grounded: bool, elapsed_micro: u32) -> int {
    let full = species.spec_speed() * elapsed_micro;
    let rate = if grounded {
        full
    } else {
        full / 2
    };
    match roll {
        Roll::Left => rate,
        Roll::Right => -rate,
    }
}

/// Angular velocity after a change, held within the largest magnitude.
pub open spec fn spin_after(velocity_micro: int, change_micro: int) -> int {
    let raw = velocity_micro + change_micro;
    if raw > MAX_SPIN_MICRO {
        MAX_SPIN_MICRO as int
    } else if raw < -MAX_SPIN_MICRO {
        -MAX_SPIN_MICRO
    } else {
        raw
    }
}

impl ColonyView {
    /// The creature at `i` touches at least one body that is no creature.
    pub open spec fn is_grounded(self, i: int) -> bool {
        self.members[i].grounded > 0
    }

    /// The jumps of the `Controlled` creatures among the first `n`, in
    /// creation order.
    pub open spec fn hops_upto(self, n: int) -> Seq<Hop>
        decreases n,
    {
        if n <= 0 {
            Seq::empty()
        } else if self.is_controlled(n - 1) {
            self.hops_upto(n - 1).push(
                Hop {
                    creature: self.members[n - 1].id,
                    impulse_hundredths: hop_impulse(
                        self.members[n - 1].species,
                        self.is_grounded(n - 1),
                    ) as u32,
                },
            )
        } else {
            self.hops_upto(n - 1)
        }
    }

    /// The jumps of all `Controlled` creatures.
    pub open spec fn hops(self) -> Seq<Hop> {
        self.hops_upto(self.members.len() as int)
    }

    /// The rolls of the `Controlled` creatures among the first `n`, in
    /// creation order.
    pub open spec fn turns_upto(self, roll: Roll, elapsed_micro: u32, n: int) -> Seq<Turn>
        decreases n,
    {
        if n <= 0 {
            Seq::empty()
        } else if self.is_controlled(n - 1) {
            self.turns_upto(roll, elapsed_micro, n - 1).push(
                Turn {
                    creature: self.members[n - 1].id,
                    change_micro: turn_change(
                        roll,
                        self.members[n - 1].species,
                        self.is_grounded(n - 1),
                        elapsed_micro,
                    ) as i64,
                },
            )
        } else {
            self.turns_upto(roll, elapsed_micro, n - 1)
        }
    }

    /// The rolls of all `Controlled` creatures for the keys held: none where
    /// the keys ask for no roll.
    pub open spec fn turns(self, left: bool, right: bool, elapsed_micro: u32) -> Seq<Turn> {
        match roll_of_keys(left, right) {
            Some(roll) => self.turns_upto(roll, elapsed_micro, self.members.len() as int),
            None => Seq::empty(),
        }
    }

    /// Only `Controlled` creatures jump and roll: a creature is named in a
    /// jump exactly when it is `Controlled`.
    pub proof fn lemma_only_controlled_hop(self, n: int, id: u64)
        requires
            0 <= n <= self.members.len(),
        ensures
            (exists|k: int|
                0 <= k < self.hops_upto(n).len() && (#[trigger] self.hops_upto(n)[k]).creature
                    == id) <==> (exists|i: int|
                0 <= i < n && #[trigger] self.is_controlled(i) && self.members[i].id == id),
        decreases n,
    {
        if n > 0 {
            self.lemma_only_controlled_hop(n - 1, id);
            let earlier = self.hops_upto(n - 1);
            let all = self.hops_upto(n);
            if exists|k: int| 0 <= k < all.len() && (#[trigger] all[k]).creature == id {
                let k = choose|k: int| 0 <= k < all.len() && (#[trigger] all[k]).creature == id;
                if k < earlier.len() {
                    assert(earlier[k].creature == id);
                    let i = choose|i: int|
                        0 <= i < n - 1 && #[trigger] self.is_controlled(i) && self.members[i].id
                            == id;
                    assert(0 <= i < n && self.is_controlled(i) && self.members[i].id == id);
                } else {
                    assert(self.is_controlled(n - 1) && self.members[n - 1].id == id);
                }
            }
            if exists|i: int|
                0 <= i < n && #[trigger] self.is_controlled(i) && self.members[i].id == id {
                let i = choose|i: int|
                    0 <= i < n && #[trigger] self.is_controlled(i) && self.members[i].id == id;
                if i < n - 1 {
                    let k = choose|k: int|
                        0 <= k < earlier.len() && (#[trigger] earlier[k]).creature == id;
                    assert(all[k].creature == id);
                } else {
                    assert(all[all.len() - 1].creature == id);
                }
            }
        }
    }
}

impl Roll {
    /// The roll that the two direction keys ask for: none where both or
    /// neither is held.
    pub fn from_keys(left: bool, right: bool) -> (roll: Option<Roll>)
        ensures
            roll == roll_of_keys(left, right),
    {
        if left && !right {
            Some(Roll::Left)
        } else if right && !left {
            Some(Roll::Right)
        } else {
            None
        }
    }
}

/// Upward impulse of a jump, in hundredths: the species' full jump for a
/// grounded creature, a twentieth of it for one in the air.
pub fn jump_impulse(species: Creature, grounded: bool) -> (impulse: u32)
    ensures
        impulse == hop_impulse(species, grounded),
{
    let full: u32 = species.jump();
    if grounded {
        full * 100
    } else {
        full * 5
    }
}

/// Change of angular velocity over `elapsed_micro` microseconds of rolling,
/// in millionths of a radian per second.
pub fn roll_change(roll: Roll, species: Creature, grounded: bool, elapsed_micro: u32) -> (change: i64)
    ensures
        change == turn_change(roll, species, grounded, elapsed_micro),
{
    let speed: i64 = species.speed() as i64;
    let full: i64 = speed * (elapsed_micro as i64);
    let rate: i64 = if grounded {
        full
    } else {
        full / 2
    };
    match roll {
        Roll::Left => rate,
        Roll::Right => -rate,
    }
}

/// Angular velocity after a change, held within the largest magnitude
/// whatever the velocity was before.
pub fn roll_velocity(velocity_micro: i64, change_micro: i64) -> (velocity: i64)
    ensures
        velocity == spin_after(velocity_micro as int, change_micro as int),
        -MAX_SPIN_MICRO <= velocity <= MAX_SPIN_MICRO,
{
    let raw: i128 = (velocity_micro as i128) + (change_micro as i128);
    if raw > MAX_SPIN_MICRO as i128 {
        MAX_SPIN_MICRO
    } else if raw < -(MAX_SPIN_MICRO as i128) {
        -MAX_SPIN_MICRO
    } else {
        raw as i64
    }
}

} // verus!
