//! The colony: the creatures of a level, the links between them and the
//! creature that leads. Every operation states what it does as a transition
//! of the colony's view.

use vstd::prelude::*;
use crate::model::{ColonyView, Control, Link, Member};
use crate::locomotion::{jump_impulse, roll_change, Hop, Roll, Turn};
use crate::orders::{Burst, Contact, Joint};
use crate::species::Creature;

verus! {

/// The creatures of a level with their links and their control state.
pub struct Colony {
    members: Vec<Member>,
    links: Vec<Link>,
    main: Option<usize>,
}

impl View for Colony {
    type V = ColonyView;

    closed spec fn view(&self) -> ColonyView {
        ColonyView { members: self.members@, links: self.links@, main: self.main }
    }
}

impl Colony {
    /// Validity of the colony: that of its view.
    pub open spec fn wf(&self) -> bool {
        self@.wf()
    }

    /// A colony without creatures.
    pub fn new() -> (colony: Colony)
        ensures
            colony.wf(),
            colony@ == ColonyView::empty(),
            colony@.control_follows_links(),
    {
        Colony { members: Vec::new(), links: Vec::new(), main: None }
    }

    /// Number of creatures.
    pub fn len(&self) -> (n: usize)
        ensures
            n == self@.members.len(),
    {
        self.members.len()
    }

    /// Number of links.
    pub fn link_count(&self) -> (n: usize)
        ensures
            n == self@.links.len(),
    {
        self.links.len()
    }

    /// Position of the creature with identifier `id`, if `id` is a creature.
    pub fn position(&self, id: u64) -> (at: Option<usize>)
        requires
            self.wf(),
        ensures
            match at {
                Some(i) => self@.position(id) == Some(i as int),
                None => self@.position(id) is None,
            },
            at is Some ==> self@.has_id_at(id, at->0 as int),
    {
        let mut i: usize = 0;
        while i < self.members.len()
            invariant
                self.wf(),
                i <= self.members.len(),
                forall|j: int| 0 <= j < i ==> self.members@[j].id != id,
            decreases self.members.len() - i,
        {
            if self.members[i].id == id {
                proof {
                    self@.lemma_position_is(id, i as int);
                }
                return Some(i);
            }
            i += 1;
        }
        proof {
            self@.lemma_position_none(id);
        }
        None
    }

    /// The creature with identifier `id`, if `id` is a creature.
    pub fn member(&self, id: u64) -> (found: Option<Member>)
        requires
            self.wf(),
        ensures
            match self@.position(id) {
                Some(i) => found == Some(self@.members[i]),
                None => found is None,
            },
    {
        match self.position(id) {
            Some(i) => Some(self.members[i]),
            None => None,
        }
    }

    /// Whether a link binds the creatures at `i` and `j`, in either order.
    fn has_link(&self, i: usize, j: usize) -> (found: bool)
        ensures
            found == self@.linked(i as int, j as int),
    {
        let mut k: usize = 0;
        while k < self.links.len()
            invariant
                k <= self.links.len(),
                forall|l: int| 0 <= l < k ==> !(#[trigger] self.links@[l]).joins(i as int, j as int),
            decreases self.links.len() - k,
        {
            let link = self.links[k];
            if (link.first == i && link.second == j) || (link.first == j && link.second == i) {
                assert(self@.links[k as int].joins(i as int, j as int));
                assert(self@.linked(i as int, j as int));
                return true;
            }
            k += 1;
        }
        false
    }

    /// Replaces the control state of the creature at `i`.
    fn set_control(&mut self, i: usize, control: Control)
        requires
            i < old(self)@.members.len(),
        ensures
            final(self)@ == old(self)@.with_control(i as int, control),
    {
        let m = self.members[i];
        self.members.set(
            i,
            Member { id: m.id, species: m.species, grounded: m.grounded, control },
        );
    }

    /// Replaces the ground counter of the creature at `i`.
    fn set_grounded(&mut self, i: usize, grounded: u32)
        requires
            i < old(self)@.members.len(),
        ensures
            final(self)@ == old(self)@.with_grounded(i as int, grounded),
    {
        let m = self.members[i];
        self.members.set(
            i,
            Member { id: m.id, species: m.species, grounded, control: m.control },
        );
    }

    /// Counts one more body touching the creature at `i`.
    fn touch(&mut self, i: usize)
        requires
            i < old(self)@.members.len(),
        ensures
            final(self)@ == old(self)@.touched(i as int),
    {
        let g: u32 = self.members[i].grounded;
        let raised: u32 = if g < u32::MAX {
            g + 1
        } else {
            g
        };
        self.set_grounded(i, raised);
    }

    /// Counts one body less touching the creature at `i`.
    fn part(&mut self, i: usize)
        requires
            i < old(self)@.members.len(),
        ensures
            final(self)@ == old(self)@.parted(i as int),
    {
        let g: u32 = self.members[i].grounded;
        let lowered: u32 = if g > 0 {
            g - 1
        } else {
            0
        };
        self.set_grounded(i, lowered);
    }

    /// Links the creatures at `i` and `j` and queues for control the one
    /// that is not `Controlled` where exactly one of them is.
    fn join(&mut self, i: usize, j: usize) -> (joint: Joint)
        requires
            i < old(self)@.members.len(),
            j < old(self)@.members.len(),
        ensures
            final(self)@ == old(self)@.joined(i as int, j as int),
            joint == old(self)@.joint(i as int, j as int),
    {
        let first = self.members[i];
        let second = self.members[j];
        let first_controlled = first.control == Control::Controlled;
        let second_controlled = second.control == Control::Controlled;
        self.links.push(Link { first: i, second: j });
        let spread_to: Option<u64> = if first_controlled && !second_controlled {
            self.set_control(j, Control::SpreadControl);
            Some(second.id)
        } else if second_controlled && !first_controlled {
            self.set_control(i, Control::SpreadControl);
            Some(first.id)
        } else {
            None
        };
        Joint {
            first: first.id,
            second: second.id,
            first_reach: first.species.radius(),
            second_reach: second.species.radius(),
            spread_to,
        }
    }

    /// Takes in that the bodies `a` and `b` have begun to touch.
    ///
    /// Two different creatures that are not linked yet become linked, and the
    /// joint to create is handed back. A creature and a body that is no
    /// creature: the creature's ground counter goes up. Anything else changes
    /// nothing.
    pub fn contact_start(&mut self, a: u64, b: u64) -> (outcome: Contact)
        requires
            old(self).wf(),
        ensures
            final(self).wf(),
            final(self)@ == old(self)@.contact_started(a, b),
            outcome == old(self)@.contact_outcome(a, b),
            old(self)@.control_follows_links() ==> final(self)@.control_follows_links(),
    {
        proof {
            self@.lemma_contact_started_keeps_wf(a, b);
            if self@.control_follows_links() {
                self@.lemma_contact_started_keeps_control(a, b);
            }
        }
        match (self.position(a), self.position(b)) {
            (Some(i), Some(j)) => {
                if i == j {
                    Contact::Ignored
                } else if self.has_link(i, j) {
                    Contact::AlreadyLinked
                } else {
                    Contact::Linked(self.join(i, j))
                }
            },
            (Some(i), None) => {
                self.touch(i);
                Contact::Grounded { creature: a }
            },
            (None, Some(j)) => {
                self.touch(j);
                Contact::Grounded { creature: b }
            },
            (None, None) => Contact::Ignored,
        }
    }

    /// Takes in that the bodies `a` and `b` have ceased to touch: where
    /// exactly one of them is a creature, its ground counter goes down, and
    /// a counter at zero stays at zero.
    pub fn contact_end(&mut self, a: u64, b: u64)
        requires
            old(self).wf(),
        ensures
            final(self).wf(),
            final(self)@ == old(self)@.contact_ended(a, b),
            old(self)@.control_follows_links() ==> final(self)@.control_follows_links(),
    {
        proof {
            self@.lemma_contact_ended_keeps_wf(a, b);
            if self@.control_follows_links() {
                self@.lemma_contact_ended_keeps_control(a, b);
            }
        }
        match (self.position(a), self.position(b)) {
            (Some(i), None) => {
                self.part(i);
            },
            (None, Some(j)) => {
                self.part(j);
            },
            _ => {},
        }
    }

    /// Drains the contact starts of one tick, in order, and hands back what
    /// each came to.
    pub fn on_collision_enter(&mut self, events: &Vec<(u64, u64)>) -> (outcomes: Vec<Contact>)
        requires
            old(self).wf(),
        ensures
            final(self).wf(),
            final(self)@ == old(self)@.contacts_started(events@),
            outcomes@.len() == events@.len(),
            forall|k: int|
                0 <= k < events@.len() ==> outcomes@[k] == old(self)@.contacts_started(
                    events@.take(k),
                ).contact_outcome(events@[k].0, events@[k].1),
            old(self)@.control_follows_links() ==> final(self)@.control_follows_links(),
    {
        let ghost start = self@;
        let mut outcomes: Vec<Contact> = Vec::new();
        let mut n: usize = 0;
        while n < events.len()
            invariant
                self.wf(),
                start.control_follows_links() ==> self@.control_follows_links(),
                n <= events@.len(),
                self@ == start.contacts_started(events@.take(n as int)),
                outcomes@.len() == n,
                forall|k: int|
                    0 <= k < n ==> outcomes@[k] == start.contacts_started(
                        events@.take(k),
                    ).contact_outcome(events@[k].0, events@[k].1),
            decreases events.len() - n,
        {
            let (a, b) = events[n];
            let outcome = self.contact_start(a, b);
            outcomes.push(outcome);
            proof {
                assert(events@.take(n + 1).drop_last() == events@.take(n as int));
                assert(events@.take(n + 1).last() == events@[n as int]);
            }
            n += 1;
        }
        proof {
            assert(events@.take(events@.len() as int) == events@);
        }
        outcomes
    }

    /// Drains the contact ends of one tick, in order.
    pub fn on_collision_exit(&mut self, events: &Vec<(u64, u64)>)
        requires
            old(self).wf(),
        ensures
            final(self).wf(),
            final(self)@ == old(self)@.contacts_ended(events@),
            old(self)@.control_follows_links() ==> final(self)@.control_follows_links(),
    {
        let ghost start = self@;
        let mut n: usize = 0;
        while n < events.len()
            invariant
                self.wf(),
                start.control_follows_links() ==> self@.control_follows_links(),
                n <= events@.len(),
                self@ == start.contacts_ended(events@.take(n as int)),
            decreases events.len() - n,
        {
            let (a, b) = events[n];
            self.contact_end(a, b);
            proof {
                assert(events@.take(n + 1).drop_last() == events@.take(n as int));
                assert(events@.take(n + 1).last() == events@[n as int]);
            }
            n += 1;
        }
        proof {
            assert(events@.take(events@.len() as int) == events@);
        }
    }

    /// The least position in `lo..hi` whose creature is `Controlled` or not,
    /// as `controlled` asks.
    fn scan(&self, lo: usize, hi: usize, controlled: bool) -> (found: Option<usize>)
        requires
            hi <= self@.members.len(),
        ensures
            match found {
                Some(c) => self@.scan(lo as int, hi as int, controlled) == Some(c as int),
                None => self@.scan(lo as int, hi as int, controlled) is None,
            },
    {
        let mut i: usize = lo;
        while i < hi
            invariant
                lo <= i,
                hi <= self@.members.len(),
                self@.scan(lo as int, hi as int, controlled) == self@.scan(
                    i as int,
                    hi as int,
                    controlled,
                ),
            decreases hi - i,
        {
            if (self.members[i].control == Control::Controlled) == controlled {
                return Some(i);
            }
            i += 1;
        }
        None
    }

    /// The creature that leads after a switch.
    fn switch_choice(&self) -> (choice: Option<usize>)
        requires
            self.wf(),
        ensures
            match choice {
                Some(c) => self@.switch_choice() == Some(c as int) && c < self@.members.len(),
                None => self@.switch_choice() is None,
            },
    {
        proof {
            self@.lemma_switch_choice_in_range();
        }
        let n: usize = self.members.len();
        let (after, before): (usize, usize) = match self.main {
            Some(m) => (m + 1, m),
            None => (0, 0),
        };
        if let Some(c) = self.scan(after, n, false) {
            return Some(c);
        }
        if let Some(c) = self.scan(after, n, true) {
            return Some(c);
        }
        if let Some(c) = self.scan(0, before, false) {
            return Some(c);
        }
        if let Some(c) = self.scan(0, before, true) {
            return Some(c);
        }
        self.main
    }

    /// Hands the lead to another creature.
    ///
    /// Every creature loses `Controlled`. The new main creature is, in order
    /// of preference: the first creature after the old one that was not
    /// `Controlled`; the first after it that was; the first before it that
    /// was not; the first before it that was; the old one itself where it is
    /// alone. The new main creature is queued in `SpreadControl`, and its
    /// identifier is handed back. Only a colony without creatures has no
    /// main creature afterwards.
    pub fn switch_main(&mut self) -> (leader: Option<u64>)
        requires
            old(self).wf(),
        ensures
            final(self).wf(),
            final(self)@ == old(self)@.switched(),
            match old(self)@.switch_choice() {
                Some(c) => leader == Some(old(self)@.members[c].id),
                None => leader is None,
            },
            old(self)@.members.len() > 0 ==> leader is Some && final(self)@.main is Some,
            forall|i: int|
                0 <= i < final(self)@.members.len() ==> !#[trigger] final(self)@.is_controlled(i),
            old(self)@.settled() ==> final(self)@.control_follows_links(),
    {
        let ghost start = self@;
        proof {
            start.lemma_switched_keeps_wf();
            start.lemma_switch_choice_in_range();
            if start.settled() {
                start.lemma_switched_keeps_control();
            }
        }
        let choice = self.switch_choice();
        let ghost chosen: Option<int> = start.switch_choice();
        let n: usize = self.members.len();
        let mut i: usize = 0;
        while i < n
            invariant
                i <= n,
                n == start.members.len(),
                self.members@.len() == n,
                self.links@ == start.links,
                self.main == start.main,
                chosen == start.switch_choice(),
                match choice {
                    Some(c) => chosen == Some(c as int),
                    None => chosen is None,
                },
                forall|j: int| 0 <= j < i ==> self.members@[j] == start.switched().members[j],
                forall|j: int| i <= j < n ==> self.members@[j] == start.members[j],
            decreases n - i,
        {
            let m = self.members[i];
            let control = if choice == Some(i) {
                Control::SpreadControl
            } else if m.control == Control::Controlled {
                Control::Uncontrolled
            } else {
                m.control
            };
            self.members.set(
                i,
                Member { id: m.id, species: m.species, grounded: m.grounded, control },
            );
            i += 1;
        }
        self.main = choice;
        proof {
            assert(self.members@ =~= start.switched().members);
        }
        match choice {
            Some(c) => Some(self.members[c].id),
            None => None,
        }
    }

    /// Severs every link.
    ///
    /// For each link a push is handed back, between the creatures that it
    /// bound, as strong as the sum of what their species contribute; all
    /// pushes are taken from the links as they were before any was removed.
    /// Every `Controlled` creature loses control, and the main creature, if
    /// it was among them, is queued in `SpreadControl` at once.
    pub fn explode(&mut self) -> (bursts: Vec<Burst>)
        requires
            old(self).wf(),
        ensures
            final(self).wf(),
            final(self)@ == old(self)@.exploded(),
            bursts@ == old(self)@.bursts(),
            final(self)@.links.len() == 0,
            forall|i: int|
                0 <= i < final(self)@.members.len() ==> !#[trigger] final(self)@.is_controlled(i),
            old(self)@.control_follows_links() && old(self)@.only_main_queued()
                ==> final(self)@.control_follows_links(),
    {
        let ghost start = self@;
        proof {
            start.lemma_exploded_keeps_wf();
            start.lemma_explosion_severs_everything();
            if start.control_follows_links() && start.only_main_queued() {
                start.lemma_exploded_keeps_control();
            }
        }
        let mut bursts: Vec<Burst> = Vec::new();
        let mut k: usize = 0;
        while k < self.links.len()
            invariant
                self@ == start,
                start.wf(),
                k <= self.links@.len(),
                bursts@.len() == k,
                forall|l: int| 0 <= l < k ==> bursts@[l] == start.bursts()[l],
            decreases self.links.len() - k,
        {
            let link = self.links[k];
            assert(start.links[k as int].first < start.members.len());
            let first = self.members[link.first];
            let second = self.members[link.second];
            bursts.push(
                Burst {
                    first: first.id,
                    second: second.id,
                    impulse: first.species.force() + second.species.force(),
                },
            );
            k += 1;
        }
        self.links.clear();
        let n: usize = self.members.len();
        let mut i: usize = 0;
        while i < n
            invariant
                i <= n,
                n == start.members.len(),
                self.members@.len() == n,
                self.main == start.main,
                self.links@.len() == 0,
                forall|j: int| 0 <= j < i ==> self.members@[j] == start.exploded().members[j],
                forall|j: int| i <= j < n ==> self.members@[j] == start.members[j],
            decreases n - i,
        {
            let m = self.members[i];
            if m.control == Control::Controlled {
                let control = if self.main == Some(i) {
                    Control::SpreadControl
                } else {
                    Control::Uncontrolled
                };
                self.members.set(
                    i,
                    Member { id: m.id, species: m.species, grounded: m.grounded, control },
                );
            }
            i += 1;
        }
        proof {
            assert(self.members@ =~= start.exploded().members);
            assert(self.links@ =~= start.exploded().links);
            assert(bursts@ =~= start.bursts());
        }
        bursts
    }

    /// Spreads control by one layer.
    ///
    /// Every creature queued in `SpreadControl` becomes `Controlled`; their
    /// identifiers are handed back in creation order. Every `Uncontrolled`
    /// creature that is linked to one of them is queued in turn, to become
    /// `Controlled` at the next spread.
    pub fn on_spread_control(&mut self) -> (awakened: Vec<u64>)
        requires
            old(self).wf(),
        ensures
            final(self).wf(),
            final(self)@ == old(self)@.spread(),
            awakened@ == old(self)@.awakened(),
            old(self)@.control_follows_links() ==> final(self)@.control_follows_links(),
    {
        let ghost start = self@;
        proof {
            start.lemma_spread_keeps_wf();
            if start.control_follows_links() {
                start.lemma_spread_keeps_control();
            }
        }
        let n: usize = self.members.len();
        let mut reached: Vec<bool> = Vec::new();
        let mut i: usize = 0;
        while i < n
            invariant
                i <= n,
                reached@.len() == i,
                forall|j: int| 0 <= j < i ==> !reached@[j],
            decreases n - i,
        {
            reached.push(false);
            i += 1;
        }
        let mut k: usize = 0;
        while k < self.links.len()
            invariant
                self@ == start,
                start.wf(),
                n == start.members.len(),
                k <= start.links.len(),
                reached@.len() == n,
                forall|j: int|
                    0 <= j < n ==> (reached@[j] <==> exists|l: int|
                        0 <= l < k && #[trigger] start.offers(l, j)),
            decreases self.links.len() - k,
        {
            let link = self.links[k];
            assert(start.links[k as int].first < n);
            let ghost before = reached@;
            if self.members[link.first].control == Control::SpreadControl {
                reached.set(link.second, true);
            }
            if self.members[link.second].control == Control::SpreadControl {
                reached.set(link.first, true);
            }
            proof {
                assert forall|j: int| 0 <= j < n implies (reached@[j] <==> exists|l: int|
                    0 <= l < k + 1 && #[trigger] start.offers(l, j)) by {
                    if reached@[j] {
                        if before[j] {
                            let l = choose|l: int| 0 <= l < k && #[trigger] start.offers(l, j);
                            assert(0 <= l < k + 1 && start.offers(l, j));
                        } else {
                            assert(start.offers(k as int, j));
                        }
                    }
                    if exists|l: int| 0 <= l < k + 1 && #[trigger] start.offers(l, j) {
                        let l = choose|l: int| 0 <= l < k + 1 && #[trigger] start.offers(l, j);
                        if l < k {
                            assert(before[j]);
                        }
                    }
                }
            }
            k += 1;
        }
        let mut awakened: Vec<u64> = Vec::new();
        let mut i: usize = 0;
        while i < n
            invariant
                i <= n,
                n == start.members.len(),
                self.members@.len() == n,
                self.links@ == start.links,
                self.main == start.main,
                reached@.len() == n,
                forall|j: int|
                    0 <= j < n ==> (reached@[j] <==> exists|l: int|
                        0 <= l < start.links.len() && #[trigger] start.offers(l, j)),
                awakened@ == start.spreading_upto(i as int),
                forall|j: int| 0 <= j < i ==> self.members@[j] == start.spread().members[j],
                forall|j: int| i <= j < n ==> self.members@[j] == start.members[j],
            decreases n - i,
        {
            let m = self.members[i];
            proof {
                if reached@[i as int] {
                    let l = choose|l: int|
                        0 <= l < start.links.len() && #[trigger] start.offers(l, i as int);
                    assert(start.offers(l, i as int));
                }
                if start.spread_reaches(i as int) {
                    let l = choose|l: int| start.offers(l, i as int);
                    assert(0 <= l < start.links.len() && start.offers(l, i as int));
                }
            }
            let control = match m.control {
                Control::Controlled => Control::Controlled,
                Control::SpreadControl => {
                    awakened.push(m.id);
                    Control::Controlled
                },
                Control::Uncontrolled => if reached[i] {
                    Control::SpreadControl
                } else {
                    Control::Uncontrolled
                },
            };
            self.members.set(
                i,
                Member { id: m.id, species: m.species, grounded: m.grounded, control },
            );
            i += 1;
        }
        proof {
            assert(self.members@ =~= start.spread().members);
        }
        awakened
    }

    /// Identifier of the main creature, if there is one.
    pub fn main_creature(&self) -> (leader: Option<u64>)
        requires
            self.wf(),
        ensures
            match self@.main {
                Some(m) => leader == Some(self@.members[m as int].id),
                None => leader is None,
            },
    {
        match self.main {
            Some(m) => Some(self.members[m].id),
            None => None,
        }
    }

    /// Whether the bodies `a` and `b` are creatures with a link between
    /// them, in whichever order they are named.
    pub fn are_linked(&self, a: u64, b: u64) -> (linked: bool)
        requires
            self.wf(),
        ensures
            linked == match (self@.position(a), self@.position(b)) {
                (Some(i), Some(j)) => self@.linked(i, j),
                _ => false,
            },
    {
        match (self.position(a), self.position(b)) {
            (Some(i), Some(j)) => self.has_link(i, j),
            _ => false,
        }
    }

    /// Identifiers of the creatures linked to the creature `id`, in the
    /// order in which the links were made; none for a body that is no
    /// creature.
    pub fn neighbors(&self, id: u64) -> (linked: Vec<u64>)
        requires
            self.wf(),
        ensures
            linked@ == match self@.position(id) {
                Some(i) => self@.ids_at(self@.neighbors(i)),
                None => Seq::empty(),
            },
    {
        let mut linked: Vec<u64> = Vec::new();
        match self.position(id) {
            Some(i) => {
                let mut k: usize = 0;
                while k < self.links.len()
                    invariant
                        self.wf(),
                        i < self@.members.len(),
                        k <= self@.links.len(),
                        linked@ == self@.ids_at(self@.neighbors_upto(i as int, k as int)),
                    decreases self.links.len() - k,
                {
                    let link = self.links[k];
                    assert(self@.links[k as int].first < self@.members.len());
                    let ghost earlier = self@.neighbors_upto(i as int, k as int);
                    if link.first == i {
                        linked.push(self.members[link.second].id);
                        assert(linked@ == self@.ids_at(earlier.push(link.second as int)));
                    } else if link.second == i {
                        linked.push(self.members[link.first].id);
                        assert(linked@ == self@.ids_at(earlier.push(link.first as int)));
                    }
                    k += 1;
                }
            },
            None => {},
        }
        linked
    }

    /// Identifiers of the two creatures at the ends of every link, in the
    /// order in which the links were made.
    pub fn links(&self) -> (ends: Vec<(u64, u64)>)
        requires
            self.wf(),
        ensures
            ends@ == self@.link_ends(),
    {
        let mut ends: Vec<(u64, u64)> = Vec::new();
        let mut k: usize = 0;
        while k < self.links.len()
            invariant
                self.wf(),
                k <= self@.links.len(),
                ends@.len() == k,
                forall|l: int| 0 <= l < k ==> ends@[l] == self@.link_ends()[l],
            decreases self.links.len() - k,
        {
            let link = self.links[k];
            assert(self@.links[k as int].first < self@.members.len());
            ends.push((self.members[link.first].id, self.members[link.second].id));
            k += 1;
        }
        proof {
            assert(ends@ =~= self@.link_ends());
        }
        ends
    }

    /// The jumps of a jump input: one for every `Controlled` creature, in
    /// creation order, at full strength for a grounded creature and at a
    /// twentieth of it for one in the air.
    pub fn jump(&self) -> (hops: Vec<Hop>)
        requires
            self.wf(),
        ensures
            hops@ == self@.hops(),
    {
        let mut hops: Vec<Hop> = Vec::new();
        let mut i: usize = 0;
        while i < self.members.len()
            invariant
                i <= self@.members.len(),
                hops@ == self@.hops_upto(i as int),
            decreases self.members.len() - i,
        {
            let m = self.members[i];
            if m.control == Control::Controlled {
                hops.push(
                    Hop {
                        creature: m.id,
                        impulse_hundredths: jump_impulse(m.species, m.grounded > 0),
                    },
                );
            }
            i += 1;
        }
        hops
    }

    /// The rolls of one tick for the direction keys held: one for every
    /// `Controlled` creature, in creation order, at full rate for a grounded
    /// creature and at half rate for one in the air; none where both keys or
    /// neither is held.
    pub fn movement(&self, left: bool, right: bool, elapsed_micro: u32) -> (turns: Vec<Turn>)
        requires
            self.wf(),
        ensures
            turns@ == self@.turns(left, right, elapsed_micro),
    {
        let mut turns: Vec<Turn> = Vec::new();
        match Roll::from_keys(left, right) {
            Some(roll) => {
                let mut i: usize = 0;
                while i < self.members.len()
                    invariant
                        i <= self@.members.len(),
                        turns@ == self@.turns_upto(roll, elapsed_micro, i as int),
                    decreases self.members.len() - i,
                {
                    let m = self.members[i];
                    if m.control == Control::Controlled {
                        turns.push(
                            Turn {
                                creature: m.id,
                                change_micro: roll_change(
                                    roll,
                                    m.species,
                                    m.grounded > 0,
                                    elapsed_micro,
                                ),
                            },
                        );
                    }
                    i += 1;
                }
            },
            None => {},
        }
        turns
    }

    /// Whether the creature at `i` is at one end of some link.
    fn carries_link(&self, i: usize) -> (found: bool)
        ensures
            found == self@.carries_link(i as int),
    {
        let mut k: usize = 0;
        while k < self.links.len()
            invariant
                k <= self.links.len(),
                forall|l: int| 0 <= l < k ==> !(#[trigger] self.links@[l]).touches(i as int),
            decreases self.links.len() - k,
        {
            let link = self.links[k];
            if link.first == i || link.second == i {
                assert(self@.links[k as int].touches(i as int));
                return true;
            }
            k += 1;
        }
        false
    }

    /// The creature among the bodies `a` and `b` with the body that it met:
    /// `a` where `a` is a creature, else `b` where `b` is one, and none
    /// where neither is.
    pub fn visitor(&self, a: u64, b: u64) -> (pair: Option<(u64, u64)>)
        requires
            self.wf(),
        ensures
            pair == self@.visitor(a, b),
    {
        if self.position(a).is_some() {
            Some((a, b))
        } else if self.position(b).is_some() {
            Some((b, a))
        } else {
            None
        }
    }

    /// The body that a contact between `a` and `b` shatters if it is glass:
    /// the body met by a creature that is linked to another. Of two
    /// creatures the first named counts as the one that met the other.
    pub fn glass_collision(&self, a: u64, b: u64) -> (met: Option<u64>)
        requires
            self.wf(),
        ensures
            met == self@.shattered(a, b),
    {
        match self.position(a) {
            Some(i) => if self.carries_link(i) {
                Some(b)
            } else {
                None
            },
            None => match self.position(b) {
                Some(j) => if self.carries_link(j) {
                    Some(a)
                } else {
                    None
                },
                None => None,
            },
        }
    }
}

impl Creature {
    /// Adds a creature of the given species to the colony under the
    /// identifier `id`, with no body touching it and no link. A creature
    /// spawned `controlled` is `Controlled` at once and becomes the main
    /// creature; any other is `Uncontrolled`. Returns whether the identifier
    /// was fresh; one that is in use already leaves the colony as it was.
    pub fn spawn(colony: &mut Colony, id: u64, species: Creature, controlled: bool) -> (fresh: bool)
        requires
            old(colony).wf(),
        ensures
            final(colony).wf(),
            fresh == !old(colony)@.is_creature(id),
            final(colony)@ == old(colony)@.spawned(id, species, controlled),
            !fresh ==> final(colony)@ == old(colony)@,
            fresh ==> {
                &&& final(colony)@.members == old(colony)@.members.push(
                    Member {
                        id,
                        species,
                        grounded: 0,
                        control: if controlled {
                            Control::Controlled
                        } else {
                            Control::Uncontrolled
                        },
                    },
                )
                &&& final(colony)@.links == old(colony)@.links
                &&& final(colony)@.main == if controlled {
                    Some(old(colony)@.members.len() as usize)
                } else {
                    old(colony)@.main
                }
            },
            old(colony)@.control_follows_links() && (controlled ==> old(
                colony,
            )@.nobody_has_control()) ==> final(colony)@.control_follows_links(),
    {
        let ghost start = colony@;
        if colony.position(id).is_some() {
            return false;
        }
        let at: usize = colony.members.len();
        proof {
            assert(colony.links@ == colony@.links);
            assert forall|i: int| 0 <= i < colony.members@.len() implies colony.members@[i].id
                != id by {
                assert(!colony@.has_id_at(id, i));
            }
        }
        colony.members.push(
            Member {
                id,
                species,
                grounded: 0,
                control: if controlled {
                    Control::Controlled
                } else {
                    Control::Uncontrolled
                },
            },
        );
        if controlled {
            colony.main = Some(at);
        }
        proof {
            assert(colony.members.len() == colony.members@.len());
            if start.control_follows_links() && (controlled ==> start.nobody_has_control()) {
                start.lemma_spawned_keeps_control(id, species, controlled);
            }
        }
        true
    }
}

} // verus!
