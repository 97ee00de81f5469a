//! Laws of the link graph: it is simple and undirected, further contacts
//! between linked creatures add nothing, and an explosion leaves no link.

use vstd::prelude::*;
use crate::ground::ContactEvent;
use crate::model::{ColonyView, Control};

verus! {

impl ColonyView {
    /// Positions of the creatures at the other end of the first `k` links
    /// that touch the creature at `i`, in the order of the links.
    pub open spec fn neighbors_upto(self, i: int, k: int) -> Seq<int>
        decreases k,
    {
        if k <= 0 {
            Seq::empty()
        } else if self.links[k - 1].touches(i) {
            self.neighbors_upto(i, k - 1).push(self.links[k - 1].other_end(i))
        } else {
            self.neighbors_upto(i, k - 1)
        }
    }

    /// Positions of the creatures linked to the creature at `i`, in the
    /// order of the links.
    pub open spec fn neighbors(self, i: int) -> Seq<int> {
        self.neighbors_upto(i, self.links.len() as int)
    }

    /// Identifiers of the creatures at the given positions.
    pub open spec fn ids_at(self, positions: Seq<int>) -> Seq<u64> {
        Seq::new(positions.len(), |k: int| self.members[positions[k]].id)
    }

    /// Identifiers of the two ends of every link, in the order of the links.
    pub open spec fn link_ends(self) -> Seq<(u64, u64)> {
        Seq::new(
            self.links.len(),
            |k: int|
                (
                    self.members[self.links[k].first as int].id,
                    self.members[self.links[k].second as int].id,
                ),
        )
    }

    /// The creature at `i` is at one end of some link.
    pub open spec fn carries_link(self, i: int) -> bool {
        exists|k: int| 0 <= k < self.links.len() && #[trigger] self.links[k].touches(i)
    }

    /// The creature among the bodies `a` and `b` with the body that it met:
    /// `a` where `a` is a creature, else `b` where `b` is one.
    pub open spec fn visitor(self, a: u64, b: u64) -> Option<(u64, u64)> {
        if self.is_creature(a) {
            Some((a, b))
        } else if self.is_creature(b) {
            Some((b, a))
        } else {
            None
        }
    }

    /// The body that a contact between `a` and `b` shatters if it is glass:
    /// the body met by a creature that is at one end of some link. A
    /// creature on its own breaks nothing.
    pub open spec fn shattered(self, a: u64, b: u64) -> Option<u64> {
        match self.visitor(a, b) {
            Some((creature, met)) => if self.carries_link(self.position(creature)->0) {
                Some(met)
            } else {
                None
            },
            None => None,
        }
    }

    /// Whether two bodies are linked does not depend on the order in which
    /// they are named.
    pub proof fn lemma_linked_is_symmetric(self, a: int, b: int)
        ensures
            self.linked(a, b) == self.linked(b, a),
    {
        if self.linked(a, b) {
            let k = choose|k: int| 0 <= k < self.links.len() && #[trigger] self.links[k].joins(a, b);
            assert(self.links[k].joins(b, a));
        }
        if self.linked(b, a) {
            let k = choose|k: int| 0 <= k < self.links.len() && #[trigger] self.links[k].joins(b, a);
            assert(self.links[k].joins(a, b));
        }
    }

    /// Between two creatures there is at most one link: two links that bind
    /// the same pair, in whatever order, are one and the same.
    pub proof fn lemma_one_link_per_pair(self, a: int, b: int, k: int, l: int)
        requires
            self.wf(),
            0 <= k < self.links.len(),
            0 <= l < self.links.len(),
            self.links[k].joins(a, b),
            self.links[l].joins(a, b),
        ensures
            k == l,
    {
        if k < l {
            assert(!self.links[k].joins(self.links[l].first as int, self.links[l].second as int));
        } else if l < k {
            assert(!self.links[l].joins(self.links[k].first as int, self.links[k].second as int));
        }
    }

    /// However many contacts begin and end, between two creatures there is
    /// at most one link afterwards.
    pub proof fn lemma_one_link_per_pair_after_events(
        self,
        events: Seq<ContactEvent>,
        a: int,
        b: int,
        k: int,
        l: int,
    )
        requires
            self.wf(),
            0 <= k < self.after_events(events).links.len(),
            0 <= l < self.after_events(events).links.len(),
            self.after_events(events).links[k].joins(a, b),
            self.after_events(events).links[l].joins(a, b),
        ensures
            k == l,
    {
        self.lemma_after_events_keeps_wf(events);
        self.after_events(events).lemma_one_link_per_pair(a, b, k, l);
    }

    /// A contact between two creatures that are linked already changes
    /// nothing, in whichever order the two are reported.
    pub proof fn lemma_contact_while_linked_changes_nothing(self, a: u64, b: u64)
        requires
            self.wf(),
            self.position(a) is Some,
            self.position(b) is Some,
            self.linked(self.position(a)->0, self.position(b)->0),
        ensures
            self.contact_started(a, b) == self,
            self.contact_started(b, a) == self,
    {
        self.lemma_linked_is_symmetric(self.position(a)->0, self.position(b)->0);
    }

    /// After two creatures have touched they are linked, and every further
    /// contact between them leaves the colony as it is.
    pub proof fn lemma_contact_links_once(self, a: u64, b: u64)
        requires
            self.wf(),
            self.position(a) is Some,
            self.position(b) is Some,
            a != b,
        ensures
            self.contact_started(a, b).linked(self.position(a)->0, self.position(b)->0),
            self.contact_started(a, b).contact_started(a, b) == self.contact_started(a, b),
            self.contact_started(a, b).contact_started(b, a) == self.contact_started(a, b),
            self.contact_started(a, b).links.len() <= self.links.len() + 1,
    {
        let i = self.position(a)->0;
        let j = self.position(b)->0;
        let after = self.contact_started(a, b);
        self.lemma_position_holds(a);
        self.lemma_position_holds(b);
        self.lemma_contact_started_keeps_wf(a, b);
        self.lemma_same_creatures_same_positions(after, a);
        self.lemma_same_creatures_same_positions(after, b);
        if !self.linked(i, j) {
            assert(after.links[self.links.len() as int].joins(i, j));
        } else {
            let k = choose|k: int| 0 <= k < self.links.len() && #[trigger] self.links[k].joins(i, j);
            assert(after.links[k].joins(i, j));
        }
        after.lemma_contact_while_linked_changes_nothing(a, b);
    }

    /// What `neighbors_upto` lists are the creatures linked by one of the
    /// first `k` links.
    proof fn lemma_neighbors_upto(self, i: int, k: int, j: int)
        requires
            self.wf(),
            0 <= k <= self.links.len(),
        ensures
            self.neighbors_upto(i, k).contains(j) <==> exists|l: int|
                0 <= l < k && #[trigger] self.links[l].joins(i, j),
        decreases k,
    {
        if k > 0 {
            self.lemma_neighbors_upto(i, k - 1, j);
            let earlier = self.neighbors_upto(i, k - 1);
            let last = self.links[k - 1];
            if last.touches(i) {
                let listed = earlier.push(last.other_end(i));
                assert(listed[earlier.len() as int] == last.other_end(i));
                if listed.contains(j) {
                    let at = choose|at: int| 0 <= at < listed.len() && listed[at] == j;
                    if at < earlier.len() {
                        assert(earlier[at] == j);
                        assert(earlier.contains(j));
                        let l = choose|l: int|
                            0 <= l < k - 1 && #[trigger] self.links[l].joins(i, j);
                        assert(0 <= l < k && self.links[l].joins(i, j));
                    } else {
                        assert(self.links[k - 1].joins(i, j));
                    }
                }
                if exists|l: int| 0 <= l < k && #[trigger] self.links[l].joins(i, j) {
                    let l = choose|l: int| 0 <= l < k && #[trigger] self.links[l].joins(i, j);
                    if l < k - 1 {
                        assert(earlier.contains(j));
                        let at = choose|at: int| 0 <= at < earlier.len() && earlier[at] == j;
                        assert(listed[at] == j);
                    } else {
                        assert(listed[earlier.len() as int] == j);
                    }
                }
            } else {
                if exists|l: int| 0 <= l < k && #[trigger] self.links[l].joins(i, j) {
                    let l = choose|l: int| 0 <= l < k && #[trigger] self.links[l].joins(i, j);
                    assert(l < k - 1);
                }
                if earlier.contains(j) {
                    let l = choose|l: int| 0 <= l < k - 1 && #[trigger] self.links[l].joins(i, j);
                    assert(0 <= l < k && self.links[l].joins(i, j));
                }
            }
        }
    }

    /// The neighbors of a creature are exactly the creatures linked to it.
    pub proof fn lemma_neighbors_are_linked(self, i: int, j: int)
        requires
            self.wf(),
        ensures
            self.neighbors(i).contains(j) <==> self.linked(i, j),
    {
        self.lemma_neighbors_upto(i, self.links.len() as int, j);
    }

    /// An explosion removes every link, so that no two different creatures
    /// are connected any more. No creature is `Controlled` afterwards: each
    /// that was has lost control, but for the main creature, which is queued
    /// in `SpreadControl`. The others keep the state they had.
    pub proof fn lemma_explosion_severs_everything(self)
        requires
            self.wf(),
        ensures
            self.exploded().links.len() == 0,
            self.same_creatures(self.exploded()),
            self.exploded().main == self.main,
            forall|a: int, b: int| #[trigger] self.exploded().connected(a, b) ==> a == b,
            forall|i: int|
                0 <= i < self.members.len() ==> !#[trigger] self.exploded().is_controlled(i),
            forall|i: int|
                0 <= i < self.members.len() && #[trigger] self.is_controlled(i) ==> self.exploded().members[i].control
                    == (if self.is_main(i) {
                    Control::SpreadControl
                } else {
                    Control::Uncontrolled
                }),
            forall|i: int|
                0 <= i < self.members.len() && !#[trigger] self.is_controlled(i)
                    ==> self.exploded().members[i].control == self.members[i].control,
    {
        let after = self.exploded();
        assert forall|a: int, b: int| #[trigger] after.connected(a, b) implies a == b by {
            let path = choose|path: Seq<int>|
                #[trigger] after.is_path(path) && path[0] == a && path[path.len() - 1] == b;
            if path.len() > 1 {
                assert(after.linked(path[0], path[1]));
            }
        }
    }
}

} // verus!
