//! What the colony hands back to its caller: the joints to create in the
//! physics world, the pushes to apply, and what became of a contact.

use vstd::prelude::*;

verus! {

/// Compliance of the joint behind every link, in millionths: soft enough to
/// give visibly, stiff enough to hold a pair together under gravity.
pub const LINK_COMPLIANCE_MILLIONTHS: u32 = 10;

/// A joint to create between two creatures that have just been linked.
///
/// The anchor on each body lies on the line from its centre towards the other
/// body at the moment of contact, at the distance given here. Anchors are
/// fixed when the joint is made.
#[derive(Clone, Copy, Debug, PartialEq, Eq, Structural)]
pub struct Joint {
    /// Identifier of the first body.
    pub first: u64,
    /// Identifier of the second body.
    pub second: u64,
    /// Distance of the anchor on the first body from its centre: its radius.
    pub first_reach: u32,
    /// Distance of the anchor on the second body from its centre: its radius.
    pub second_reach: u32,
    /// The creature that the new link has queued for control, if any.
    pub spread_to: Option<u64>,
}

/// What a contact between two bodies came to.
#[derive(Clone, Copy, Debug, PartialEq, Eq, Structural)]
pub enum Contact {
    /// Neither body is a creature, or a body was reported against itself.
    Ignored,
    /// One body is a creature and the other is not: the creature's ground
    /// counter went up.
    Grounded { creature: u64 },
    /// Both bodies are creatures that are linked already.
    AlreadyLinked,
    /// Both bodies are creatures and a link between them was made.
    Linked(Joint),
}

/// The push along one severed link. The first creature is pushed away from
/// the second and the second away from the first, along the line that joins
/// their centres, each with the same impulse.
#[derive(Clone, Copy, Debug, PartialEq, Eq, Structural)]
pub struct Burst {
    pub first: u64,
    pub second: u64,
    pub impulse: u32,
}

} // verus!
