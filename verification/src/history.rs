//! Whole histories of play: what holds of a colony after any run of spawns,
//! contacts, spreads, explosions and switches.

use vstd::prelude::*;
use crate::ground::ContactEvent;
use crate::model::ColonyView;
use crate::species::Creature;

verus! {

/// One thing that happens to a colony.
#[derive(Clone, Copy, Debug, PartialEq, Eq, Structural)]
pub enum Step {
    /// A creature is spawned under an identifier, in control or not.
    Spawn(u64, Creature, bool),
    /// Two bodies begin or cease to touch.
    Contact(ContactEvent),
    /// Control spreads by one layer.
    Spread,
    /// Every link is severed.
    Explode,
    /// The lead goes to another creature.
    Switch,
}

impl ColonyView {
    /// The colony after one step.
    pub open spec fn after_step(self, step: Step) -> ColonyView {
        match step {
            Step::Spawn(id, species, controlled) => self.spawned(id, species, controlled),
            Step::Contact(event) => self.after_event(event),
            Step::Spread => self.spread(),
            Step::Explode => self.exploded(),
            Step::Switch => self.switched(),
        }
    }

    /// The step comes at a moment at which control can go on following the
    /// links: a creature is spawned in control only while no creature has
    /// control, an explosion comes only while no creature but the main
    /// creature is queued, and a switch only while none is queued at all.
    /// Contacts and spreads may come at any time.
    pub open spec fn in_time(self, step: Step) -> bool {
        match step {
            Step::Spawn(_, _, controlled) => {
                &&& self.members.len() < usize::MAX
                &&& controlled ==> self.nobody_has_control()
            },
            Step::Contact(_) => true,
            Step::Spread => true,
            Step::Explode => self.only_main_queued(),
            Step::Switch => self.settled(),
        }
    }

    /// The colony after a run of steps, taken in order.
    pub open spec fn after_steps(self, steps: Seq<Step>) -> ColonyView
        decreases steps.len(),
    {
        if steps.len() == 0 {
            self
        } else {
            self.after_steps(steps.drop_last()).after_step(steps.last())
        }
    }

    /// Every step of the run comes in time.
    pub open spec fn all_in_time(self, steps: Seq<Step>) -> bool
        decreases steps.len(),
    {
        if steps.len() == 0 {
            true
        } else {
            &&& self.all_in_time(steps.drop_last())
            &&& self.after_steps(steps.drop_last()).in_time(steps.last())
        }
    }

    /// Spawning keeps a colony valid as long as there is room for one more
    /// creature.
    pub proof fn lemma_spawned_keeps_wf(self, id: u64, species: Creature, controlled: bool)
        requires
            self.wf(),
            self.members.len() < usize::MAX,
        ensures
            self.spawned(id, species, controlled).wf(),
    {
        if !self.is_creature(id) {
            assert forall|i: int| 0 <= i < self.members.len() implies self.members[i].id
                != id by {
                assert(!self.has_id_at(id, i));
            }
        }
    }

    /// One step in time keeps a colony valid and keeps control following the
    /// links.
    pub proof fn lemma_step_keeps_control(self, step: Step)
        requires
            self.wf(),
            self.control_follows_links(),
            self.in_time(step),
        ensures
            self.after_step(step).wf(),
            self.after_step(step).control_follows_links(),
    {
        match step {
            Step::Spawn(id, species, controlled) => {
                self.lemma_spawned_keeps_wf(id, species, controlled);
                self.lemma_spawned_keeps_control(id, species, controlled);
            },
            Step::Contact(event) => {
                match event {
                    ContactEvent::Started(a, b) => {
                        self.lemma_contact_started_keeps_wf(a, b);
                        self.lemma_contact_started_keeps_control(a, b);
                    },
                    ContactEvent::Ended(a, b) => {
                        self.lemma_contact_ended_keeps_wf(a, b);
                        self.lemma_contact_ended_keeps_control(a, b);
                    },
                }
            },
            Step::Spread => {
                self.lemma_spread_keeps_wf();
                self.lemma_spread_keeps_control();
            },
            Step::Explode => {
                self.lemma_exploded_keeps_wf();
                self.lemma_exploded_keeps_control();
            },
            Step::Switch => {
                self.lemma_switched_keeps_wf();
                self.lemma_switched_keeps_control();
            },
        }
    }

    /// A run of steps that all come in time keeps a colony valid and keeps
    /// control following the links.
    pub proof fn lemma_steps_keep_control(self, steps: Seq<Step>)
        requires
            self.wf(),
            self.control_follows_links(),
            self.all_in_time(steps),
        ensures
            self.after_steps(steps).wf(),
            self.after_steps(steps).control_follows_links(),
        decreases steps.len(),
    {
        if steps.len() > 0 {
            self.lemma_steps_keep_control(steps.drop_last());
            self.after_steps(steps.drop_last()).lemma_step_keeps_control(steps.last());
        }
    }

    /// Whatever has happened to a colony since it was empty, as long as each
    /// step came in time: once nothing is queued, the `Controlled` creatures
    /// are exactly the creatures connected to the main creature, and no
    /// `Uncontrolled` creature can be reached from it along links.
    pub proof fn lemma_settled_after_any_history(steps: Seq<Step>)
        requires
            ColonyView::empty().all_in_time(steps),
            ColonyView::empty().after_steps(steps).settled(),
        ensures
            ({
                let now = ColonyView::empty().after_steps(steps);
                forall|i: int|
                    0 <= i < now.members.len() ==> (#[trigger] now.is_controlled(i) <==> now.main
                        is Some && now.connected(now.leader(), i))
            }),
    {
        let start = ColonyView::empty();
        assert(start.wf());
        assert(start.control_follows_links());
        start.lemma_steps_keep_control(steps);
        start.after_steps(steps).lemma_settled_control_is_component();
    }
}

} // verus!
