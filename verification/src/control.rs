//! Control follows the links: the creatures that receive input are those
//! joined to the main creature.
//!
//! The colony keeps an invariant, `control_follows_links`, through contacts
//! and spreads. Once nothing is queued any more it says that the
//! `Controlled` creatures are exactly those connected to the main creature.

use vstd::prelude::*;
use crate::model::{ColonyView, Control};
use crate::species::Creature;

verus! {

impl ColonyView {
    /// The creature at `i` is `Controlled` or queued to become so.
    pub open spec fn has_control(self, i: int) -> bool {
        self.members[i].control != Control::Uncontrolled
    }

    /// Position of the main creature; -1 where there is none.
    pub open spec fn leader(self) -> int {
        match self.main {
            Some(m) => m as int,
            None => -1,
        }
    }

    /// `path` is a walk along links: each position in it is linked to the
    /// next.
    pub open spec fn is_path(self, path: Seq<int>) -> bool {
        &&& path.len() > 0
        &&& forall|s: int|
            0 <= s < path.len() - 1 ==> self.linked(#[trigger] path[s], path[s + 1])
    }

    /// A walk along links leads from `a` to `b`. Every position is connected
    /// to itself.
    pub open spec fn connected(self, a: int, b: int) -> bool {
        exists|path: Seq<int>|
            #[trigger] self.is_path(path) && path[0] == a && path[path.len() - 1] == b
    }

    /// Along the link at `k`, a `Controlled` creature at one end means that
    /// the creature at the other end is `Controlled` or queued.
    pub open spec fn link_guarded(self, k: int) -> bool {
        &&& self.is_controlled(self.links[k].first as int) ==> self.has_control(
            self.links[k].second as int,
        )
        &&& self.is_controlled(self.links[k].second as int) ==> self.has_control(
            self.links[k].first as int,
        )
    }

    /// Control follows the links: every creature that is `Controlled` or
    /// queued is connected to the main creature; no link leads from a
    /// `Controlled` creature to an `Uncontrolled` one; and the main creature
    /// is itself `Controlled` or queued.
    pub open spec fn control_follows_links(self) -> bool {
        &&& forall|i: int|
            0 <= i < self.members.len() && #[trigger] self.has_control(i) ==> self.main is Some
                && self.connected(self.leader(), i)
        &&& forall|k: int| 0 <= k < self.links.len() ==> #[trigger] self.link_guarded(k)
        &&& (self.main is Some ==> self.has_control(self.leader()))
    }

    /// No creature other than the main creature is queued in `SpreadControl`.
    pub open spec fn only_main_queued(self) -> bool {
        forall|i: int|
            0 <= i < self.members.len() && #[trigger] self.is_spreading(i) ==> self.is_main(i)
    }

    /// No creature is `Controlled` or queued.
    pub open spec fn nobody_has_control(self) -> bool {
        forall|i: int| 0 <= i < self.members.len() ==> !#[trigger] self.has_control(i)
    }

    // ----- walks -----

    /// Every position is connected to itself.
    pub proof fn lemma_connected_to_itself(self, a: int)
        ensures
            self.connected(a, a),
    {
        let path = seq![a];
        assert(self.is_path(path));
        assert(path[0] == a && path[path.len() - 1] == a);
    }

    /// A walk can be continued along one more link.
    pub proof fn lemma_connected_extends(self, a: int, b: int, c: int)
        requires
            self.connected(a, b),
            self.linked(b, c),
        ensures
            self.connected(a, c),
    {
        let path = choose|path: Seq<int>|
            #[trigger] self.is_path(path) && path[0] == a && path[path.len() - 1] == b;
        let longer = path.push(c);
        assert forall|s: int| 0 <= s < longer.len() - 1 implies self.linked(
            #[trigger] longer[s],
            longer[s + 1],
        ) by {
            if s < path.len() - 1 {
                assert(self.linked(path[s], path[s + 1]));
            }
        }
        assert(self.is_path(longer));
        assert(longer[0] == a && longer[longer.len() - 1] == c);
    }

    /// Links of `self` are links of `other`: `other` has the links of `self`
    /// and perhaps more behind them.
    pub open spec fn links_kept_by(self, other: ColonyView) -> bool {
        &&& self.links.len() <= other.links.len()
        &&& forall|k: int| 0 <= k < self.links.len() ==> self.links[k] == other.links[k]
    }

    /// What is connected stays connected when links are added.
    pub proof fn lemma_connected_carries(self, other: ColonyView, a: int, b: int)
        requires
            self.links_kept_by(other),
            self.connected(a, b),
        ensures
            other.connected(a, b),
    {
        let path = choose|path: Seq<int>|
            #[trigger] self.is_path(path) && path[0] == a && path[path.len() - 1] == b;
        assert forall|s: int| 0 <= s < path.len() - 1 implies other.linked(
            #[trigger] path[s],
            path[s + 1],
        ) by {
            assert(self.linked(path[s], path[s + 1]));
            let k = choose|k: int|
                0 <= k < self.links.len() && #[trigger] self.links[k].joins(path[s], path[s + 1]);
            assert(other.links[k].joins(path[s], path[s + 1]));
        }
        assert(other.is_path(path));
    }

    /// The link at `k` links its two ends.
    pub proof fn lemma_link_links(self, k: int)
        requires
            0 <= k < self.links.len(),
        ensures
            self.linked(self.links[k].first as int, self.links[k].second as int),
            self.linked(self.links[k].second as int, self.links[k].first as int),
    {
        assert(self.links[k].joins(self.links[k].first as int, self.links[k].second as int));
        assert(self.links[k].joins(self.links[k].second as int, self.links[k].first as int));
    }

    // ----- the settled colony -----

    /// In a settled colony where control follows the links, every position
    /// on a walk from the main creature is a `Controlled` creature.
    proof fn lemma_walk_is_controlled(self, path: Seq<int>, s: int)
        requires
            self.wf(),
            self.control_follows_links(),
            self.settled(),
            self.main is Some,
            self.is_path(path),
            path[0] == self.leader(),
            0 <= s < path.len(),
        ensures
            0 <= path[s] < self.members.len(),
            self.is_controlled(path[s]),
        decreases s,
    {
        if s == 0 {
            assert(self.has_control(self.leader()));
            assert(!self.is_spreading(self.leader()));
        } else {
            self.lemma_walk_is_controlled(path, s - 1);
            assert(self.linked(path[s - 1], path[s]));
            let k = choose|k: int|
                0 <= k < self.links.len() && #[trigger] self.links[k].joins(path[s - 1], path[s]);
            assert(self.link_guarded(k));
            assert(self.links[k].first < self.members.len());
            assert(self.has_control(path[s]));
            assert(!self.is_spreading(path[s]));
        }
    }

    /// Once nothing is queued, the `Controlled` creatures are exactly the
    /// creatures connected to the main creature: each of them is connected
    /// to it, and no creature connected to it is left without control.
    /// Without a main creature no creature is `Controlled`.
    pub proof fn lemma_settled_control_is_component(self)
        requires
            self.wf(),
            self.control_follows_links(),
            self.settled(),
        ensures
            forall|i: int|
                0 <= i < self.members.len() ==> (#[trigger] self.is_controlled(i) <==> self.main
                    is Some && self.connected(self.leader(), i)),
    {
        assert forall|i: int| 0 <= i < self.members.len() implies (#[trigger] self.is_controlled(i)
            <==> self.main is Some && self.connected(self.leader(), i)) by {
            if self.is_controlled(i) {
                assert(self.has_control(i));
            }
            if self.main is Some && self.connected(self.leader(), i) {
                let path = choose|path: Seq<int>|
                    #[trigger] self.is_path(path) && path[0] == self.leader() && path[path.len()
                        - 1] == i;
                self.lemma_walk_is_controlled(path, path.len() - 1);
            }
        }
    }

    // ----- what keeps control following the links -----

    /// A change that touches neither links, nor control states, nor the main
    /// creature keeps control following the links.
    pub proof fn lemma_same_control_follows(self, other: ColonyView)
        requires
            self.wf(),
            self.control_follows_links(),
            other.links == self.links,
            other.main == self.main,
            other.members.len() == self.members.len(),
            forall|i: int|
                0 <= i < self.members.len() ==> (#[trigger] other.members[i]).control
                    == self.members[i].control,
        ensures
            other.control_follows_links(),
    {
        assert forall|i: int| 0 <= i < other.members.len() && #[trigger] other.has_control(
            i,
        ) implies other.main is Some && other.connected(other.leader(), i) by {
            assert(self.has_control(i));
            self.lemma_connected_carries(other, self.leader(), i);
        }
        assert forall|k: int| 0 <= k < other.links.len() implies #[trigger] other.link_guarded(
            k,
        ) by {
            assert(self.link_guarded(k));
            assert(self.links[k].first < self.members.len());
        }
        if self.main is Some {
            assert(self.has_control(self.leader()));
        }
    }

    /// A new link keeps control following the links.
    pub proof fn lemma_joined_keeps_control(self, i: int, j: int)
        requires
            self.wf(),
            self.control_follows_links(),
            0 <= i < self.members.len(),
            0 <= j < self.members.len(),
            i != j,
        ensures
            self.joined(i, j).control_follows_links(),
    {
        let after = self.joined(i, j);
        let fresh = self.links.len() as int;
        assert(after.links[fresh].joins(i, j));
        assert(after.links[fresh].joins(j, i));
        assert(after.linked(i, j));
        assert(after.linked(j, i));
        assert forall|x: int| 0 <= x < after.members.len() && #[trigger] after.has_control(
            x,
        ) implies after.main is Some && after.connected(after.leader(), x) by {
            if self.has_control(x) {
                self.lemma_connected_carries(after, self.leader(), x);
            } else {
                let o = if x == i {
                    j
                } else {
                    i
                };
                assert(self.is_controlled(o));
                assert(self.has_control(o));
                self.lemma_connected_carries(after, self.leader(), o);
                after.lemma_connected_extends(after.leader(), o, x);
            }
        }
        assert forall|k: int| 0 <= k < after.links.len() implies #[trigger] after.link_guarded(
            k,
        ) by {
            if k < fresh {
                assert(self.link_guarded(k));
                assert(self.links[k].first < self.members.len());
            }
        }
        if self.main is Some {
            assert(self.has_control(self.leader()));
        }
    }

    /// A contact start keeps control following the links.
    pub proof fn lemma_contact_started_keeps_control(self, a: u64, b: u64)
        requires
            self.wf(),
            self.control_follows_links(),
        ensures
            self.contact_started(a, b).control_follows_links(),
    {
        if self.is_creature(a) {
            self.lemma_position_holds(a);
        }
        if self.is_creature(b) {
            self.lemma_position_holds(b);
        }
        match (self.position(a), self.position(b)) {
            (Some(i), Some(j)) => {
                if i != j && !self.linked(i, j) {
                    self.lemma_joined_keeps_control(i, j);
                }
            },
            (Some(i), None) => {
                self.lemma_same_control_follows(self.touched(i));
            },
            (None, Some(j)) => {
                self.lemma_same_control_follows(self.touched(j));
            },
            (None, None) => {},
        }
    }

    /// A contact end keeps control following the links.
    pub proof fn lemma_contact_ended_keeps_control(self, a: u64, b: u64)
        requires
            self.wf(),
            self.control_follows_links(),
        ensures
            self.contact_ended(a, b).control_follows_links(),
    {
        if self.is_creature(a) {
            self.lemma_position_holds(a);
        }
        if self.is_creature(b) {
            self.lemma_position_holds(b);
        }
        match (self.position(a), self.position(b)) {
            (Some(i), None) => {
                self.lemma_same_control_follows(self.parted(i));
            },
            (None, Some(j)) => {
                self.lemma_same_control_follows(self.parted(j));
            },
            _ => {},
        }
    }

    /// One spread keeps control following the links.
    pub proof fn lemma_spread_keeps_control(self)
        requires
            self.wf(),
            self.control_follows_links(),
        ensures
            self.spread().control_follows_links(),
    {
        let after = self.spread();
        assert forall|x: int| 0 <= x < after.members.len() && #[trigger] after.has_control(
            x,
        ) implies after.main is Some && after.connected(after.leader(), x) by {
            if self.has_control(x) {
                self.lemma_connected_carries(after, self.leader(), x);
            } else {
                assert(self.spread_reaches(x));
                let k = choose|k: int| self.offers(k, x);
                let o = self.links[k].other_end(x);
                assert(self.links[k].first < self.members.len());
                assert(self.has_control(o));
                self.lemma_link_links(k);
                self.lemma_connected_extends(self.leader(), o, x);
                self.lemma_connected_carries(after, self.leader(), x);
            }
        }
        assert forall|k: int| 0 <= k < after.links.len() implies #[trigger] after.link_guarded(
            k,
        ) by {
            let first = self.links[k].first as int;
            let second = self.links[k].second as int;
            assert(self.links[k].first < self.members.len());
            assert(self.link_guarded(k));
            if after.is_controlled(first) && !self.has_control(second) {
                assert(self.is_spreading(first));
                assert(self.offers(k, second));
            }
            if after.is_controlled(second) && !self.has_control(first) {
                assert(self.is_spreading(second));
                assert(self.offers(k, first));
            }
        }
        if self.main is Some {
            assert(self.has_control(self.leader()));
        }
    }

    /// An explosion keeps control following the links where no creature
    /// other than the main creature is queued when it happens.
    pub proof fn lemma_exploded_keeps_control(self)
        requires
            self.wf(),
            self.control_follows_links(),
            self.only_main_queued(),
        ensures
            self.exploded().control_follows_links(),
            self.exploded().only_main_queued(),
    {
        let after = self.exploded();
        assert forall|x: int| 0 <= x < after.members.len() && #[trigger] after.has_control(
            x,
        ) implies after.main is Some && after.connected(after.leader(), x) by {
            if !self.is_controlled(x) {
                assert(self.is_spreading(x));
            }
            assert(self.is_main(x));
            after.lemma_connected_to_itself(x);
        }
        if self.main is Some {
            assert(self.has_control(self.leader()));
        }
        assert forall|x: int| 0 <= x < after.members.len() && #[trigger] after.is_spreading(
            x,
        ) implies after.is_main(x) by {
            if !self.is_controlled(x) {
                assert(self.is_spreading(x));
            }
        }
    }

    /// A switch in a settled colony makes control follow the links, with the
    /// new main creature as the only one queued.
    pub proof fn lemma_switched_keeps_control(self)
        requires
            self.wf(),
            self.settled(),
        ensures
            self.switched().control_follows_links(),
            self.switched().only_main_queued(),
    {
        let after = self.switched();
        self.lemma_switch_choice_in_range();
        assert forall|x: int| 0 <= x < after.members.len() && #[trigger] after.has_control(
            x,
        ) implies after.main is Some && after.connected(after.leader(), x) by {
            assert(!self.is_spreading(x));
            assert(self.switch_choice() == Some(x));
            after.lemma_connected_to_itself(x);
        }
        assert forall|k: int| 0 <= k < after.links.len() implies #[trigger] after.link_guarded(
            k,
        ) by {
            assert(self.links[k].first < self.members.len());
        }
        assert forall|x: int| 0 <= x < after.members.len() && #[trigger] after.is_spreading(
            x,
        ) implies after.is_main(x) by {
            assert(!self.is_spreading(x));
        }
    }

    /// Spawning keeps control following the links: always for a creature
    /// that is not spawned `controlled`, and for one that is where no
    /// creature has control yet.
    pub proof fn lemma_spawned_keeps_control(self, id: u64, species: Creature, controlled: bool)
        requires
            self.wf(),
            self.control_follows_links(),
            self.members.len() < usize::MAX,
            controlled ==> self.nobody_has_control(),
        ensures
            self.spawned(id, species, controlled).control_follows_links(),
    {
        let after = self.spawned(id, species, controlled);
        if !self.is_creature(id) {
            assert forall|x: int| 0 <= x < after.members.len() && #[trigger] after.has_control(
                x,
            ) implies after.main is Some && after.connected(after.leader(), x) by {
                if x < self.members.len() {
                    assert(self.has_control(x));
                    self.lemma_connected_carries(after, self.leader(), x);
                } else {
                    after.lemma_connected_to_itself(x);
                }
            }
            assert forall|k: int| 0 <= k < after.links.len() implies #[trigger] after.link_guarded(
                k,
            ) by {
                assert(self.links[k].first < self.members.len());
                assert(self.link_guarded(k));
            }
            if !controlled && self.main is Some {
                assert(self.has_control(self.leader()));
            }
        }
    }
}

} // verus!
