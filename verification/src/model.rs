//! The mathematical model of a colony: who is in it, who is joined to whom,
//! who leads, and what each event of the game does to that state.
//!
//! Creatures are numbered by position in creation order. Links and the main
//! creature refer to creatures by that position. Bodies that are reported by
//! the physics world are named by an identifier; a body is a creature exactly
//! when a member of the colony carries its identifier.

use vstd::prelude::*;
use crate::orders::{Burst, Contact, Joint};
use crate::species::Creature;

verus! {

/// Whether a creature receives movement input.
#[derive(Clone, Copy, Debug, PartialEq, Eq, Hash, Structural)]
pub enum Control {
    /// Receives no input.
    Uncontrolled,
    /// Queued: becomes `Controlled` at the next spread and then offers
    /// control to the creatures joined to it.
    SpreadControl,
    /// Receives movement input.
    Controlled,
}

/// One creature of the colony.
#[derive(Clone, Copy, Debug, PartialEq, Eq, Structural)]
pub struct Member {
    /// Identifier of the creature's body.
    pub id: u64,
    pub species: Creature,
    /// Number of bodies, other than creatures, that the creature touches.
    pub grounded: u32,
    pub control: Control,
}

/// An undirected joint between two creatures, given by their positions.
#[derive(Clone, Copy, Debug, PartialEq, Eq, Structural)]
pub struct Link {
    pub first: usize,
    pub second: usize,
}

impl Link {
    /// The link binds the creatures at `a` and `b`, in either order.
    pub open spec fn joins(self, a: int, b: int) -> bool {
        (self.first == a && self.second == b) || (self.first == b && self.second == a)
    }

    /// The creature at the other end of the link, seen from `a`.
    pub open spec fn other_end(self, a: int) -> int {
        if self.first == a {
            self.second as int
        } else {
            self.first as int
        }
    }

    /// The link has the creature at `a` at one of its ends.
    pub open spec fn touches(self, a: int) -> bool {
        self.first == a || self.second == a
    }
}

/// The state of a colony as a mathematical value.
pub struct ColonyView {
    /// The creatures, in creation order.
    pub members: Seq<Member>,
    /// The joints between creatures.
    pub links: Seq<Link>,
    /// Position of the main creature, if there is one.
    pub main: Option<usize>,
}

/// The first of two optional positions that is present.
pub open spec fn or_position(a: Option<int>, b: Option<int>) -> Option<int> {
    match a {
        Some(_) => a,
        None => b,
    }
}

impl ColonyView {
    /// The colony without creatures.
    pub open spec fn empty() -> ColonyView {
        ColonyView { members: Seq::empty(), links: Seq::empty(), main: None }
    }

    /// The creature at position `i` carries the identifier `id`.
    pub open spec fn has_id_at(self, id: u64, i: int) -> bool {
        0 <= i < self.members.len() && self.members[i].id == id
    }

    /// The body `id` is a creature of this colony.
    pub open spec fn is_creature(self, id: u64) -> bool {
        exists|i: int| self.has_id_at(id, i)
    }

    /// Position of the creature with identifier `id`, if `id` is a creature.
    pub open spec fn position(self, id: u64) -> Option<int> {
        if self.is_creature(id) {
            Some(choose|i: int| self.has_id_at(id, i))
        } else {
            None
        }
    }

    /// A link binds the creatures at `a` and `b`, in either order.
    pub open spec fn linked(self, a: int, b: int) -> bool {
        exists|k: int| 0 <= k < self.links.len() && #[trigger] self.links[k].joins(a, b)
    }

    /// Validity of a colony: identifiers are distinct, every link binds two
    /// different creatures of the colony, no two links bind the same pair in
    /// either order, the main creature is a creature of the colony, and
    /// every position fits a machine word.
    pub open spec fn wf(self) -> bool {
        &&& self.members.len() <= usize::MAX
        &&& forall|i: int, j: int|
            0 <= i < j < self.members.len() ==> self.members[i].id != self.members[j].id
        &&& forall|k: int|
            0 <= k < self.links.len() ==> {
                &&& (#[trigger] self.links[k]).first < self.members.len()
                &&& self.links[k].second < self.members.len()
                &&& self.links[k].first != self.links[k].second
            }
        &&& forall|k: int, l: int|
            0 <= k < l < self.links.len() ==> !(#[trigger] self.links[k]).joins(
                (#[trigger] self.links[l]).first as int,
                self.links[l].second as int,
            )
        &&& (self.main matches Some(m) ==> m < self.members.len())
    }

    /// In a valid colony an identifier is found at one position only.
    pub proof fn lemma_position_is(self, id: u64, i: int)
        requires
            self.wf(),
            self.has_id_at(id, i),
        ensures
            self.is_creature(id),
            self.position(id) == Some(i),
    {
        let c = choose|c: int| self.has_id_at(id, c);
        if c < i {
            assert(self.members[c].id != self.members[i].id);
        } else if i < c {
            assert(self.members[i].id != self.members[c].id);
        }
    }

    /// An identifier that is found at no position is no creature.
    pub proof fn lemma_position_none(self, id: u64)
        requires
            forall|i: int| 0 <= i < self.members.len() ==> self.members[i].id != id,
        ensures
            !self.is_creature(id),
            self.position(id) is None,
    {
        assert forall|i: int| !self.has_id_at(id, i) by {}
    }

    /// The position of a creature holds its identifier.
    pub proof fn lemma_position_holds(self, id: u64)
        requires
            self.is_creature(id),
        ensures
            self.position(id) is Some,
            self.has_id_at(id, self.position(id)->0),
    {
    }

    /// The creature at position `i` is `Controlled`.
    pub open spec fn is_controlled(self, i: int) -> bool {
        self.members[i].control == Control::Controlled
    }

    /// The creature at position `i` is queued in `SpreadControl`.
    pub open spec fn is_spreading(self, i: int) -> bool {
        self.members[i].control == Control::SpreadControl
    }

    /// The creature at position `i` is the main creature.
    pub open spec fn is_main(self, i: int) -> bool {
        self.main == Some(i as usize)
    }

    /// No creature is queued in `SpreadControl`.
    pub open spec fn settled(self) -> bool {
        forall|i: int| 0 <= i < self.members.len() ==> !self.is_spreading(i)
    }

    /// The same colony with the control state of the creature at `i` replaced.
    pub open spec fn with_control(self, i: int, control: Control) -> ColonyView {
        ColonyView {
            members: self.members.update(
                i,
                Member {
                    id: self.members[i].id,
                    species: self.members[i].species,
                    grounded: self.members[i].grounded,
                    control,
                },
            ),
            links: self.links,
            main: self.main,
        }
    }

    /// The same colony with the ground counter of the creature at `i`
    /// replaced.
    pub open spec fn with_grounded(self, i: int, grounded: u32) -> ColonyView {
        ColonyView {
            members: self.members.update(
                i,
                Member {
                    id: self.members[i].id,
                    species: self.members[i].species,
                    grounded,
                    control: self.members[i].control,
                },
            ),
            links: self.links,
            main: self.main,
        }
    }

    // ----- spawning -----

    /// The colony after a creature with a fresh identifier is added at the
    /// end, with no body touching it and no link. A creature spawned
    /// `controlled` is `Controlled` at once and becomes the main creature,
    /// taking that role from any earlier holder; any other is `Uncontrolled`
    /// and leaves the main creature as it is. The creatures that were there
    /// stay as they were. An identifier that is already in use changes
    /// nothing.
    pub open spec fn spawned(self, id: u64, species: Creature, controlled: bool) -> ColonyView {
        if self.is_creature(id) {
            self
        } else {
            ColonyView {
                members: self.members.push(
                    Member {
                        id,
                        species,
                        grounded: 0,
                        control: if controlled {
                            Control::Controlled
                        } else {
                            Control::Uncontrolled
                        },
                    },
                ),
                links: self.links,
                main: if controlled {
                    Some(self.members.len() as usize)
                } else {
                    self.main
                },
            }
        }
    }

    // ----- contacts -----

    /// One more body touches the creature at `i`. The counter stops at the
    /// largest value it can hold.
    pub open spec fn touched(self, i: int) -> ColonyView {
        let g = self.members[i].grounded;
        self.with_grounded(
            i,
            if g < u32::MAX {
                (g + 1) as u32
            } else {
                g
            },
        )
    }

    /// One body less touches the creature at `i`. A counter at zero stays at
    /// zero: a parting that no counted touch preceded is passed over.
    pub open spec fn parted(self, i: int) -> ColonyView {
        let g = self.members[i].grounded;
        self.with_grounded(
            i,
            if g > 0 {
                (g - 1) as u32
            } else {
                0
            },
        )
    }

    /// The creature that a new link between `i` and `j` queues for control:
    /// the one that is not `Controlled` where exactly one of the two is.
    pub open spec fn spread_target(self, i: int, j: int) -> Option<int> {
        if self.is_controlled(i) && !self.is_controlled(j) {
            Some(j)
        } else if self.is_controlled(j) && !self.is_controlled(i) {
            Some(i)
        } else {
            None
        }
    }

    /// The colony after a new link from `i` to `j` is made.
    pub open spec fn joined(self, i: int, j: int) -> ColonyView {
        let bound = ColonyView {
            members: self.members,
            links: self.links.push(Link { first: i as usize, second: j as usize }),
            main: self.main,
        };
        match self.spread_target(i, j) {
            Some(t) => bound.with_control(t, Control::SpreadControl),
            None => bound,
        }
    }

    /// The colony after the bodies `a` and `b` have begun to touch.
    ///
    /// Two different creatures that are not linked yet become linked. A
    /// creature and a body that is no creature: the creature's ground counter
    /// goes up. Anything else changes nothing.
    pub open spec fn contact_started(self, a: u64, b: u64) -> ColonyView {
        match (self.position(a), self.position(b)) {
            (Some(i), Some(j)) => if i == j || self.linked(i, j) {
                self
            } else {
                self.joined(i, j)
            },
            (Some(i), None) => self.touched(i),
            (None, Some(j)) => self.touched(j),
            (None, None) => self,
        }
    }

    /// The joint to create for a new link from `i` to `j`.
    pub open spec fn joint(self, i: int, j: int) -> Joint {
        Joint {
            first: self.members[i].id,
            second: self.members[j].id,
            first_reach: self.members[i].species.spec_radius() as u32,
            second_reach: self.members[j].species.spec_radius() as u32,
            spread_to: match self.spread_target(i, j) {
                Some(t) => Some(self.members[t].id),
                None => None,
            },
        }
    }

    /// What the contact between the bodies `a` and `b` comes to.
    pub open spec fn contact_outcome(self, a: u64, b: u64) -> Contact {
        match (self.position(a), self.position(b)) {
            (Some(i), Some(j)) => if i == j {
                Contact::Ignored
            } else if self.linked(i, j) {
                Contact::AlreadyLinked
            } else {
                Contact::Linked(self.joint(i, j))
            },
            (Some(i), None) => Contact::Grounded { creature: a },
            (None, Some(j)) => Contact::Grounded { creature: b },
            (None, None) => Contact::Ignored,
        }
    }

    /// `other` has the creatures of `self`: as many, with the same
    /// identifiers and species at the same positions.
    pub open spec fn same_creatures(self, other: ColonyView) -> bool {
        &&& other.members.len() == self.members.len()
        &&& forall|i: int|
            0 <= i < self.members.len() ==> {
                &&& (#[trigger] other.members[i]).id == self.members[i].id
                &&& other.members[i].species == self.members[i].species
            }
    }

    /// Two valid colonies with the same creatures find every identifier at
    /// the same position.
    pub proof fn lemma_same_creatures_same_positions(self, other: ColonyView, id: u64)
        requires
            self.wf(),
            other.wf(),
            self.same_creatures(other),
        ensures
            other.is_creature(id) == self.is_creature(id),
            other.position(id) == self.position(id),
    {
        if self.is_creature(id) {
            self.lemma_position_holds(id);
            let i = self.position(id)->0;
            assert(other.members[i].id == id);
            other.lemma_position_is(id, i);
        }
        if other.is_creature(id) {
            other.lemma_position_holds(id);
            let i = other.position(id)->0;
            assert(other.members[i].id == self.members[i].id);
            self.lemma_position_is(id, i);
        }
    }

    /// Replacing a control state or a ground counter keeps a colony valid.
    pub proof fn lemma_update_keeps_wf(self, i: int, control: Control, grounded: u32)
        requires
            self.wf(),
            0 <= i < self.members.len(),
        ensures
            self.with_control(i, control).wf(),
            self.with_grounded(i, grounded).wf(),
    {
    }

    /// A new link between two different creatures that are not linked yet
    /// keeps a colony valid.
    pub proof fn lemma_joined_keeps_wf(self, i: int, j: int)
        requires
            self.wf(),
            0 <= i < self.members.len(),
            0 <= j < self.members.len(),
            i != j,
            !self.linked(i, j),
        ensures
            self.joined(i, j).wf(),
    {
        let fresh = Link { first: i as usize, second: j as usize };
        let bound = ColonyView {
            members: self.members,
            links: self.links.push(fresh),
            main: self.main,
        };
        assert forall|k: int, l: int| 0 <= k < l < bound.links.len() implies !(
        #[trigger] bound.links[k]).joins(
            (#[trigger] bound.links[l]).first as int,
            bound.links[l].second as int,
        ) by {
            if l == self.links.len() {
                assert(!self.links[k].joins(i, j));
            }
        }
        assert(bound.wf());
        match self.spread_target(i, j) {
            Some(t) => {
                bound.lemma_update_keeps_wf(t, Control::SpreadControl, 0);
            },
            None => {},
        }
    }

    /// A contact start keeps a colony valid.
    pub proof fn lemma_contact_started_keeps_wf(self, a: u64, b: u64)
        requires
            self.wf(),
        ensures
            self.contact_started(a, b).wf(),
            self.same_creatures(self.contact_started(a, b)),
    {
        if self.is_creature(a) {
            self.lemma_position_holds(a);
        }
        if self.is_creature(b) {
            self.lemma_position_holds(b);
        }
        match (self.position(a), self.position(b)) {
            (Some(i), Some(j)) => {
                if i != j && !self.linked(i, j) {
                    self.lemma_joined_keeps_wf(i, j);
                }
            },
            (Some(i), None) => {
                self.lemma_update_keeps_wf(i, Control::Uncontrolled, self.touched(i).members[i].grounded);
            },
            (None, Some(j)) => {
                self.lemma_update_keeps_wf(j, Control::Uncontrolled, self.touched(j).members[j].grounded);
            },
            (None, None) => {},
        }
    }

    /// A contact end keeps a colony valid.
    pub proof fn lemma_contact_ended_keeps_wf(self, a: u64, b: u64)
        requires
            self.wf(),
        ensures
            self.contact_ended(a, b).wf(),
            self.same_creatures(self.contact_ended(a, b)),
    {
        if self.is_creature(a) {
            self.lemma_position_holds(a);
        }
        if self.is_creature(b) {
            self.lemma_position_holds(b);
        }
        match (self.position(a), self.position(b)) {
            (Some(i), None) => {
                self.lemma_update_keeps_wf(i, Control::Uncontrolled, self.parted(i).members[i].grounded);
            },
            (None, Some(j)) => {
                self.lemma_update_keeps_wf(j, Control::Uncontrolled, self.parted(j).members[j].grounded);
            },
            _ => {},
        }
    }

    /// The colony after the bodies `a` and `b` have ceased to touch: where
    /// exactly one of them is a creature, its ground counter goes down.
    pub open spec fn contact_ended(self, a: u64, b: u64) -> ColonyView {
        match (self.position(a), self.position(b)) {
            (Some(i), None) => self.parted(i),
            (None, Some(j)) => self.parted(j),
            _ => self,
        }
    }

    /// The colony after a batch of contact starts, taken in order.
    pub open spec fn contacts_started(self, events: Seq<(u64, u64)>) -> ColonyView
        decreases events.len(),
    {
        if events.len() == 0 {
            self
        } else {
            self.contacts_started(events.drop_last()).contact_started(
                events.last().0,
                events.last().1,
            )
        }
    }

    /// The colony after a batch of contact ends, taken in order.
    pub open spec fn contacts_ended(self, events: Seq<(u64, u64)>) -> ColonyView
        decreases events.len(),
    {
        if events.len() == 0 {
            self
        } else {
            self.contacts_ended(events.drop_last()).contact_ended(
                events.last().0,
                events.last().1,
            )
        }
    }

    // ----- control spread -----

    /// The link at `k` offers control to the creature at `i`: it binds `i` to
    /// a creature that is queued in `SpreadControl`.
    pub open spec fn offers(self, k: int, i: int) -> bool {
        &&& 0 <= k < self.links.len()
        &&& self.links[k].touches(i)
        &&& self.is_spreading(self.links[k].other_end(i))
    }

    /// Some link offers control to the creature at `i`.
    pub open spec fn spread_reaches(self, i: int) -> bool {
        exists|k: int| self.offers(k, i)
    }

    /// Control state of the creature at `i` after one spread.
    pub open spec fn spread_control_of(self, i: int) -> Control {
        match self.members[i].control {
            Control::Controlled => Control::Controlled,
            Control::SpreadControl => Control::Controlled,
            Control::Uncontrolled => if self.spread_reaches(i) {
                Control::SpreadControl
            } else {
                Control::Uncontrolled
            },
        }
    }

    /// The colony after one spread of control: every queued creature becomes
    /// `Controlled`, and every `Uncontrolled` creature that is linked to one
    /// of them is queued in turn. One layer of the flood fill.
    pub open spec fn spread(self) -> ColonyView {
        ColonyView {
            members: Seq::new(
                self.members.len(),
                |i: int|
                    Member {
                        id: self.members[i].id,
                        species: self.members[i].species,
                        grounded: self.members[i].grounded,
                        control: self.spread_control_of(i),
                    },
            ),
            links: self.links,
            main: self.main,
        }
    }

    /// Identifiers of the creatures queued in `SpreadControl` among the first
    /// `n`, in creation order.
    pub open spec fn spreading_upto(self, n: int) -> Seq<u64>
        decreases n,
    {
        if n <= 0 {
            Seq::empty()
        } else if self.is_spreading(n - 1) {
            self.spreading_upto(n - 1).push(self.members[n - 1].id)
        } else {
            self.spreading_upto(n - 1)
        }
    }

    /// Identifiers of the creatures that one spread makes `Controlled`: those
    /// queued in `SpreadControl`, in creation order.
    pub open spec fn awakened(self) -> Seq<u64> {
        self.spreading_upto(self.members.len() as int)
    }

    /// One spread keeps a colony valid.
    pub proof fn lemma_spread_keeps_wf(self)
        requires
            self.wf(),
        ensures
            self.spread().wf(),
    {
    }

    // ----- explosion -----

    /// Control state of the creature at `i` after an explosion: a
    /// `Controlled` creature loses control, and the main creature among them
    /// is queued again at once.
    pub open spec fn exploded_control_of(self, i: int) -> Control {
        if self.is_controlled(i) {
            if self.is_main(i) {
                Control::SpreadControl
            } else {
                Control::Uncontrolled
            }
        } else {
            self.members[i].control
        }
    }

    /// The colony after an explosion: no link is left.
    pub open spec fn exploded(self) -> ColonyView {
        ColonyView {
            members: Seq::new(
                self.members.len(),
                |i: int|
                    Member {
                        id: self.members[i].id,
                        species: self.members[i].species,
                        grounded: self.members[i].grounded,
                        control: self.exploded_control_of(i),
                    },
            ),
            links: Seq::empty(),
            main: self.main,
        }
    }

    /// Strength of the push along the link at `k`: the sum of what the two
    /// species contribute.
    pub open spec fn burst_impulse(self, k: int) -> nat {
        self.members[self.links[k].first as int].species.spec_force()
            + self.members[self.links[k].second as int].species.spec_force()
    }

    /// The pushes of an explosion: one for each link, in the order of the
    /// links, between the creatures that the link bound.
    pub open spec fn bursts(self) -> Seq<Burst> {
        Seq::new(
            self.links.len(),
            |k: int|
                Burst {
                    first: self.members[self.links[k].first as int].id,
                    second: self.members[self.links[k].second as int].id,
                    impulse: self.burst_impulse(k) as u32,
                },
        )
    }

    /// An explosion keeps a colony valid.
    pub proof fn lemma_exploded_keeps_wf(self)
        requires
            self.wf(),
        ensures
            self.exploded().wf(),
    {
    }

    // ----- switching the main creature -----

    /// The least position in `lo..hi` whose creature is `Controlled` or not,
    /// as `controlled` asks.
    pub open spec fn scan(self, lo: int, hi: int, controlled: bool) -> Option<int>
        decreases hi - lo,
    {
        if lo >= hi {
            None
        } else if self.is_controlled(lo) == controlled {
            Some(lo)
        } else {
            self.scan(lo + 1, hi, controlled)
        }
    }

    /// Position where the creatures after the main creature begin: all of
    /// them where there is no main creature.
    pub open spec fn after_main(self) -> int {
        match self.main {
            Some(m) => m + 1,
            None => 0,
        }
    }

    /// Position where the creatures before the main creature end.
    pub open spec fn before_main(self) -> int {
        match self.main {
            Some(m) => m as int,
            None => 0,
        }
    }

    /// The creature that leads after a switch. In order of preference: the
    /// first creature after the main creature that is not `Controlled`; the
    /// first after it that is; the first before it that is not; the first
    /// before it that is; and the main creature itself where it is alone.
    pub open spec fn switch_choice(self) -> Option<int> {
        let n = self.members.len() as int;
        or_position(
            self.scan(self.after_main(), n, false),
            or_position(
                self.scan(self.after_main(), n, true),
                or_position(
                    self.scan(0, self.before_main(), false),
                    or_position(
                        self.scan(0, self.before_main(), true),
                        match self.main {
                            Some(m) => Some(m as int),
                            None => None,
                        },
                    ),
                ),
            ),
        )
    }

    /// Control state of the creature at `i` after a switch that chose
    /// `choice`.
    pub open spec fn switched_control_of(self, i: int, choice: Option<int>) -> Control {
        if choice == Some(i) {
            Control::SpreadControl
        } else if self.is_controlled(i) {
            Control::Uncontrolled
        } else {
            self.members[i].control
        }
    }

    /// The colony after a switch of the main creature: every creature loses
    /// `Controlled`, and the chosen creature becomes the main creature and is
    /// queued in `SpreadControl`.
    pub open spec fn switched(self) -> ColonyView {
        let choice = self.switch_choice();
        ColonyView {
            members: Seq::new(
                self.members.len(),
                |i: int|
                    Member {
                        id: self.members[i].id,
                        species: self.members[i].species,
                        grounded: self.members[i].grounded,
                        control: self.switched_control_of(i, choice),
                    },
            ),
            links: self.links,
            main: match choice {
                Some(c) => Some(c as usize),
                None => None,
            },
        }
    }

    /// What a scan finds lies in the range scanned, is `Controlled` or not as
    /// asked, and is the first such position; a scan that finds nothing has
    /// passed over a range without any.
    pub proof fn lemma_scan(self, lo: int, hi: int, controlled: bool)
        ensures
            match self.scan(lo, hi, controlled) {
                Some(c) => {
                    &&& lo <= c < hi
                    &&& self.is_controlled(c) == controlled
                    &&& forall|i: int| lo <= i < c ==> self.is_controlled(i) != controlled
                },
                None => forall|i: int| lo <= i < hi ==> self.is_controlled(i) != controlled,
            },
        decreases hi - lo,
    {
        if lo < hi && self.is_controlled(lo) != controlled {
            self.lemma_scan(lo + 1, hi, controlled);
        }
    }

    /// The creature chosen by a switch is a creature of the colony, and a
    /// colony with creatures always has one chosen.
    pub proof fn lemma_switch_choice_in_range(self)
        requires
            self.wf(),
        ensures
            self.switch_choice() matches Some(c) ==> 0 <= c < self.members.len(),
            self.members.len() > 0 ==> self.switch_choice() is Some,
    {
        let n = self.members.len() as int;
        self.lemma_scan(self.after_main(), n, false);
        self.lemma_scan(self.after_main(), n, true);
        self.lemma_scan(0, self.before_main(), false);
        self.lemma_scan(0, self.before_main(), true);
        if n > 0 && self.main is None {
            assert(self.is_controlled(0) != false || self.is_controlled(0) != true);
        }
    }

    /// A switch keeps a colony valid.
    pub proof fn lemma_switched_keeps_wf(self)
        requires
            self.wf(),
        ensures
            self.switched().wf(),
    {
        self.lemma_switch_choice_in_range();
    }

    /// The colony after `n` switches in a row.
    pub open spec fn switched_times(self, n: nat) -> ColonyView
        decreases n,
    {
        if n == 0 {
            self
        } else {
            self.switched_times((n - 1) as nat).switched()
        }
    }
}

} // verus!
