//! Laws of switching the main creature: a switch always leaves exactly one
//! creature in the lead, and switching again and again takes the lead once
//! round the colony.

use vstd::prelude::*;
use vstd::arithmetic::div_mod::{
    lemma_add_mod_noop,
    lemma_mod_add_multiples_vanish,
    lemma_mod_self_0,
    lemma_small_mod,
};
use crate::model::ColonyView;

verus! {

/// Stepping on by one commutes with reduction modulo `n`.
proof fn lemma_step_mod(a: int, n: int)
    requires
        0 <= a,
        0 < n,
    ensures
        ((a % n) + 1) % n == (a + 1) % n,
{
    lemma_add_mod_noop(a, 1, n);
    if n > 1 {
        lemma_small_mod(1, n as nat);
    } else {
        assert(a % 1 == 0);
        assert((a + 1) % 1 == 0);
        assert(1int % 1 == 0);
    }
}

impl ColonyView {
    /// No creature other than the main creature is `Controlled`.
    pub open spec fn only_main_controlled(self) -> bool {
        forall|i: int|
            0 <= i < self.members.len() && #[trigger] self.is_controlled(i) ==> self.is_main(i)
    }

    /// A switch in a colony with creatures yields exactly one main creature:
    /// the creature chosen. It is queued in `SpreadControl`, and no creature
    /// is `Controlled` any more.
    pub proof fn lemma_switch_yields_one_main(self)
        requires
            self.wf(),
            self.members.len() > 0,
        ensures
            self.switch_choice() is Some,
            self.switched().main is Some,
            self.switched().leader() == self.switch_choice()->0,
            0 <= self.switched().leader() < self.members.len(),
            self.switched().is_spreading(self.switched().leader()),
            forall|i: int|
                0 <= i < self.members.len() ==> !#[trigger] self.switched().is_controlled(i),
    {
        self.lemma_switch_choice_in_range();
    }

    /// Where no creature but the main creature is `Controlled`, a switch
    /// hands the lead to the next creature in creation order, and from the
    /// last creature to the first.
    pub proof fn lemma_switch_moves_to_next(self)
        requires
            self.wf(),
            self.main is Some,
            self.only_main_controlled(),
        ensures
            self.switched().wf(),
            self.switched().members.len() == self.members.len(),
            self.switched().main is Some,
            self.switched().leader() == (self.leader() + 1) % (self.members.len() as int),
            self.switched().only_main_controlled(),
    {
        let n = self.members.len() as int;
        let m = self.leader();
        self.lemma_switched_keeps_wf();
        self.lemma_switch_choice_in_range();
        if m + 1 < n {
            assert(!self.is_main(m + 1));
            assert(!self.is_controlled(m + 1));
            assert(self.scan(m + 1, n, false) == Some(m + 1));
            lemma_small_mod((m + 1) as nat, n as nat);
        } else {
            assert(self.scan(n, n, false) is None);
            assert(self.scan(n, n, true) is None);
            lemma_mod_self_0(n);
            if m > 0 {
                assert(!self.is_main(0));
                assert(!self.is_controlled(0));
                assert(self.scan(0, m, false) == Some(0int));
            } else {
                assert(self.scan(0, 0, false) is None);
                assert(self.scan(0, 0, true) is None);
            }
        }
    }

    /// After `k` switches in a row the lead has moved on by `k` creatures,
    /// going round from the last to the first.
    pub proof fn lemma_switches_move_on(self, k: nat)
        requires
            self.wf(),
            self.main is Some,
            self.only_main_controlled(),
        ensures
            self.switched_times(k).wf(),
            self.switched_times(k).members.len() == self.members.len(),
            self.switched_times(k).main is Some,
            self.switched_times(k).leader() == (self.leader() + k) % (self.members.len() as int),
            self.switched_times(k).only_main_controlled(),
        decreases k,
    {
        let n = self.members.len() as int;
        if k == 0 {
            lemma_small_mod(self.leader() as nat, n as nat);
        } else {
            self.lemma_switches_move_on((k - 1) as nat);
            let before = self.switched_times((k - 1) as nat);
            before.lemma_switch_moves_to_next();
            lemma_step_mod(self.leader() + k - 1, n);
        }
    }

    /// Where no creature but the main creature is `Controlled`, as many
    /// switches in a row as there are creatures bring the lead back to the
    /// creature that had it.
    pub proof fn lemma_switches_come_round(self)
        requires
            self.wf(),
            self.main is Some,
            self.only_main_controlled(),
        ensures
            self.switched_times(self.members.len()).main == self.main,
    {
        let n = self.members.len() as int;
        self.lemma_switches_move_on(self.members.len());
        lemma_mod_add_multiples_vanish(self.leader(), n);
        lemma_small_mod(self.leader() as nat, n as nat);
    }
}

} // verus!
