//! Ground contact: a creature's counter follows the bodies that touch it.
//!
//! Contacts begin and end in any interleaving. Over a run of such events the
//! counter of a creature equals the number of bodies, other than creatures,
//! that touch it, as long as the physics world reports a beginning only for a
//! body that does not touch yet and an end only for one that does.

use vstd::prelude::*;
use crate::model::ColonyView;

verus! {

/// One report of the physics world about two bodies.
#[derive(Clone, Copy, Debug, PartialEq, Eq, Structural)]
pub enum ContactEvent {
    /// The two bodies have begun to touch.
    Started(u64, u64),
    /// The two bodies have ceased to touch.
    Ended(u64, u64),
}

impl ColonyView {
    /// The colony after one contact event.
    pub open spec fn after_event(self, event: ContactEvent) -> ColonyView {
        match event {
            ContactEvent::Started(a, b) => self.contact_started(a, b),
            ContactEvent::Ended(a, b) => self.contact_ended(a, b),
        }
    }

    /// The colony after a run of contact events, taken in order.
    pub open spec fn after_events(self, events: Seq<ContactEvent>) -> ColonyView
        decreases events.len(),
    {
        if events.len() == 0 {
            self
        } else {
            self.after_events(events.drop_last()).after_event(events.last())
        }
    }

    /// The body that a contact between `a` and `b` puts under the creature
    /// `id`: the other body, where one of the two is `id` and the other is no
    /// creature.
    pub open spec fn ground_body(self, id: u64, a: u64, b: u64) -> Option<u64> {
        if a == id && !self.is_creature(b) {
            Some(b)
        } else if b == id && !self.is_creature(a) {
            Some(a)
        } else {
            None
        }
    }

    /// The bodies that touch the creature `id` after `events`, where
    /// `touching` did before.
    pub open spec fn touching_after(
        self,
        id: u64,
        touching: Set<u64>,
        events: Seq<ContactEvent>,
    ) -> Set<u64>
        decreases events.len(),
    {
        if events.len() == 0 {
            touching
        } else {
            let earlier = self.touching_after(id, touching, events.drop_last());
            match events.last() {
                ContactEvent::Started(a, b) => match self.ground_body(id, a, b) {
                    Some(body) => earlier.insert(body),
                    None => earlier,
                },
                ContactEvent::Ended(a, b) => match self.ground_body(id, a, b) {
                    Some(body) => earlier.remove(body),
                    None => earlier,
                },
            }
        }
    }

    /// The events are matched for the creature `id`: a contact begins only
    /// with a body that does not touch it yet, and ends only with one that
    /// does.
    pub open spec fn well_matched(
        self,
        id: u64,
        touching: Set<u64>,
        events: Seq<ContactEvent>,
    ) -> bool
        decreases events.len(),
    {
        if events.len() == 0 {
            true
        } else {
            let earlier = self.touching_after(id, touching, events.drop_last());
            &&& self.well_matched(id, touching, events.drop_last())
            &&& match events.last() {
                ContactEvent::Started(a, b) => match self.ground_body(id, a, b) {
                    Some(body) => !earlier.contains(body),
                    None => true,
                },
                ContactEvent::Ended(a, b) => match self.ground_body(id, a, b) {
                    Some(body) => earlier.contains(body),
                    None => true,
                },
            }
        }
    }

    /// Ground counter of the creature at `i` after the bodies `a` and `b`
    /// have begun to touch.
    pub proof fn lemma_contact_started_counts(self, a: u64, b: u64, i: int)
        requires
            self.wf(),
            0 <= i < self.members.len(),
        ensures
            self.contact_started(a, b).members[i].grounded == (match self.ground_body(
                self.members[i].id,
                a,
                b,
            ) {
                Some(_) => if self.members[i].grounded < u32::MAX {
                    (self.members[i].grounded + 1) as u32
                } else {
                    self.members[i].grounded
                },
                None => self.members[i].grounded,
            }),
    {
        let id = self.members[i].id;
        self.lemma_position_is(id, i);
        if self.is_creature(a) {
            self.lemma_position_holds(a);
        }
        if self.is_creature(b) {
            self.lemma_position_holds(b);
        }
    }

    /// Ground counter of the creature at `i` after the bodies `a` and `b`
    /// have ceased to touch.
    pub proof fn lemma_contact_ended_counts(self, a: u64, b: u64, i: int)
        requires
            self.wf(),
            0 <= i < self.members.len(),
        ensures
            self.contact_ended(a, b).members[i].grounded == (match self.ground_body(
                self.members[i].id,
                a,
                b,
            ) {
                Some(_) => if self.members[i].grounded > 0 {
                    (self.members[i].grounded - 1) as u32
                } else {
                    0
                },
                None => self.members[i].grounded,
            }),
    {
        let id = self.members[i].id;
        self.lemma_position_is(id, i);
        if self.is_creature(a) {
            self.lemma_position_holds(a);
        }
        if self.is_creature(b) {
            self.lemma_position_holds(b);
        }
    }

    /// A run of contact events keeps a colony valid and keeps its creatures.
    pub proof fn lemma_after_events_keeps_wf(self, events: Seq<ContactEvent>)
        requires
            self.wf(),
        ensures
            self.after_events(events).wf(),
            self.same_creatures(self.after_events(events)),
        decreases events.len(),
    {
        if events.len() > 0 {
            self.lemma_after_events_keeps_wf(events.drop_last());
            let earlier = self.after_events(events.drop_last());
            match events.last() {
                ContactEvent::Started(a, b) => {
                    earlier.lemma_contact_started_keeps_wf(a, b);
                },
                ContactEvent::Ended(a, b) => {
                    earlier.lemma_contact_ended_keeps_wf(a, b);
                },
            }
        }
    }

    /// A run of contact events keeps control following the links.
    pub proof fn lemma_after_events_keeps_control(self, events: Seq<ContactEvent>)
        requires
            self.wf(),
            self.control_follows_links(),
        ensures
            self.after_events(events).control_follows_links(),
        decreases events.len(),
    {
        if events.len() > 0 {
            self.lemma_after_events_keeps_wf(events.drop_last());
            self.lemma_after_events_keeps_control(events.drop_last());
            let earlier = self.after_events(events.drop_last());
            match events.last() {
                ContactEvent::Started(a, b) => {
                    earlier.lemma_contact_started_keeps_control(a, b);
                },
                ContactEvent::Ended(a, b) => {
                    earlier.lemma_contact_ended_keeps_control(a, b);
                },
            }
        }
    }

    /// Over every run of matched contact events, the ground counter of a
    /// creature equals the number of bodies that touch it: it never falls
    /// below zero and never loses count while another body still touches.
    pub proof fn lemma_ground_counter_counts_bodies(
        self,
        i: int,
        touching: Set<u64>,
        events: Seq<ContactEvent>,
    )
        requires
            self.wf(),
            0 <= i < self.members.len(),
            touching.finite(),
            self.members[i].grounded == touching.len(),
            self.well_matched(self.members[i].id, touching, events),
            touching.len() + events.len() <= u32::MAX,
        ensures
            self.touching_after(self.members[i].id, touching, events).finite(),
            self.touching_after(self.members[i].id, touching, events).len() <= touching.len()
                + events.len(),
            self.after_events(events).members[i].grounded == self.touching_after(
                self.members[i].id,
                touching,
                events,
            ).len(),
        decreases events.len(),
    {
        if events.len() > 0 {
            let id = self.members[i].id;
            let before = events.drop_last();
            self.lemma_ground_counter_counts_bodies(i, touching, before);
            self.lemma_after_events_keeps_wf(before);
            let earlier = self.after_events(before);
            assert(earlier.members[i].id == id);
            match events.last() {
                ContactEvent::Started(a, b) => {
                    self.lemma_same_creatures_same_positions(earlier, a);
                    self.lemma_same_creatures_same_positions(earlier, b);
                    earlier.lemma_contact_started_counts(a, b, i);
                },
                ContactEvent::Ended(a, b) => {
                    self.lemma_same_creatures_same_positions(earlier, a);
                    self.lemma_same_creatures_same_positions(earlier, b);
                    earlier.lemma_contact_ended_counts(a, b, i);
                },
            }
        }
    }
}

} // verus!
