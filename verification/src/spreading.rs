//! How far control gets, and how fast: the spread comes to rest within as
//! many passes as there are creatures, a creature that is some links away
//! from the queue is `Controlled` one pass after control has walked those
//! links, and no sooner.

use vstd::prelude::*;
use crate::model::ColonyView;

verus! {

impl ColonyView {
    /// The colony after `n` spreads in a row.
    pub open spec fn spread_times(self, n: nat) -> ColonyView
        decreases n,
    {
        if n == 0 {
            self
        } else {
            self.spread_times((n - 1) as nat).spread()
        }
    }

    /// Number of `Controlled` creatures among the first `n`.
    pub open spec fn controlled_count(self, n: int) -> nat
        decreases n,
    {
        if n <= 0 {
            0
        } else if self.is_controlled(n - 1) {
            self.controlled_count(n - 1) + 1
        } else {
            self.controlled_count(n - 1)
        }
    }

    /// No link leads from a `Controlled` creature to an `Uncontrolled` one.
    pub open spec fn all_links_guarded(self) -> bool {
        forall|k: int| 0 <= k < self.links.len() ==> #[trigger] self.link_guarded(k)
    }

    /// A walk of at most `d` links leads from a queued creature to the
    /// creature at `i`.
    pub open spec fn queue_within(self, i: int, d: int) -> bool {
        exists|path: Seq<int>|
            #[trigger] self.is_path(path) && 0 <= path[0] < self.members.len()
                && self.is_spreading(path[0]) && path[path.len() - 1] == i && path.len() - 1
                <= d
    }

    // ----- what a run of spreads leaves alone -----

    /// Spreads keep a colony valid and touch neither the creatures' number
    /// nor the links.
    pub proof fn lemma_spreads_keep_links(self, t: nat)
        requires
            self.wf(),
        ensures
            self.spread_times(t).wf(),
            self.spread_times(t).members.len() == self.members.len(),
            self.spread_times(t).links == self.links,
            self.spread_times(t).main == self.main,
        decreases t,
    {
        if t > 0 {
            self.lemma_spreads_keep_links((t - 1) as nat);
            self.spread_times((t - 1) as nat).lemma_spread_keeps_wf();
        }
    }

    /// A `Controlled` creature stays `Controlled` through spreads.
    pub proof fn lemma_controlled_stays(self, t: nat, i: int)
        requires
            self.wf(),
            0 <= i < self.members.len(),
            self.is_controlled(i),
        ensures
            self.spread_times(t).is_controlled(i),
        decreases t,
    {
        if t > 0 {
            self.lemma_controlled_stays((t - 1) as nat, i);
            self.lemma_spreads_keep_links((t - 1) as nat);
        }
    }

    /// A spread of a settled colony changes nothing.
    pub proof fn lemma_settled_spread_changes_nothing(self)
        requires
            self.wf(),
            self.settled(),
        ensures
            self.spread() == self,
    {
        assert forall|i: int| 0 <= i < self.members.len() implies self.spread().members[i]
            == self.members[i] by {
            assert(!self.is_spreading(i));
            if self.spread_reaches(i) {
                let k = choose|k: int| self.offers(k, i);
                assert(self.links[k].first < self.members.len());
                assert(!self.is_spreading(self.links[k].other_end(i)));
            }
        }
        assert(self.spread().members =~= self.members);
    }

    // ----- the spread comes to rest -----

    /// There are no more `Controlled` creatures among the first `n` than
    /// `n`, and fewer where one of them is not `Controlled`.
    proof fn lemma_count_bound(self, n: int, j: int)
        requires
            0 <= n,
        ensures
            self.controlled_count(n) <= n,
            0 <= j < n && !self.is_controlled(j) ==> self.controlled_count(n) < n,
        decreases n,
    {
        if n > 0 {
            self.lemma_count_bound(n - 1, j);
        }
    }

    /// Where every `Controlled` creature of `self` is `Controlled` in
    /// `other`, `other` has at least as many of them, and more where the
    /// creature at `j` has become `Controlled`.
    proof fn lemma_count_grows(self, other: ColonyView, n: int, j: int)
        requires
            0 <= n,
            forall|i: int| 0 <= i < n && #[trigger] self.is_controlled(i) ==> other.is_controlled(i),
        ensures
            self.controlled_count(n) <= other.controlled_count(n),
            0 <= j < n && !self.is_controlled(j) && other.is_controlled(j)
                ==> self.controlled_count(n) < other.controlled_count(n),
        decreases n,
    {
        if n > 0 {
            self.lemma_count_grows(other, n - 1, j);
            if self.is_controlled(n - 1) {
                assert(other.is_controlled(n - 1));
            }
        }
    }

    /// As long as the queue is not empty, every pass has made at least one
    /// more creature `Controlled`.
    proof fn lemma_queue_progress(self, k: nat)
        requires
            self.wf(),
        ensures
            !self.spread_times(k).settled() ==> self.spread_times(k).controlled_count(
                self.members.len() as int,
            ) >= k,
        decreases k,
    {
        if k > 0 {
            let n = self.members.len() as int;
            let before = self.spread_times((k - 1) as nat);
            let after = self.spread_times(k);
            self.lemma_queue_progress((k - 1) as nat);
            self.lemma_spreads_keep_links((k - 1) as nat);
            if !after.settled() {
                if before.settled() {
                    before.lemma_settled_spread_changes_nothing();
                }
                let j = choose|j: int| 0 <= j < before.members.len() && before.is_spreading(j);
                assert(after.is_controlled(j));
                assert forall|i: int| 0 <= i < n && #[trigger] before.is_controlled(
                    i,
                ) implies after.is_controlled(i) by {}
                before.lemma_count_grows(after, n, j);
            }
        }
    }

    /// The spread comes to rest: after as many passes as there are creatures
    /// no creature is queued any more, and further passes change nothing.
    pub proof fn lemma_spread_settles(self)
        requires
            self.wf(),
        ensures
            self.spread_times(self.members.len()).settled(),
            self.spread_times(self.members.len()).spread() == self.spread_times(
                self.members.len(),
            ),
    {
        let n = self.members.len();
        let end = self.spread_times(n);
        self.lemma_queue_progress(n);
        self.lemma_spreads_keep_links(n);
        if !end.settled() {
            let j = choose|j: int| 0 <= j < end.members.len() && end.is_spreading(j);
            end.lemma_count_bound(n as int, j);
        }
        end.lemma_settled_spread_changes_nothing();
    }

    // ----- control arrives as fast as the links allow -----

    /// A spread keeps the links guarded.
    pub proof fn lemma_spread_keeps_guard(self)
        requires
            self.wf(),
            self.all_links_guarded(),
        ensures
            self.spread().all_links_guarded(),
    {
        let after = self.spread();
        assert forall|k: int| 0 <= k < after.links.len() implies #[trigger] after.link_guarded(
            k,
        ) by {
            let first = self.links[k].first as int;
            let second = self.links[k].second as int;
            assert(self.links[k].first < self.members.len());
            assert(self.link_guarded(k));
            if after.is_controlled(first) && !self.has_control(second) {
                assert(self.is_spreading(first));
                assert(self.offers(k, second));
            }
            if after.is_controlled(second) && !self.has_control(first) {
                assert(self.is_spreading(second));
                assert(self.offers(k, first));
            }
        }
    }

    /// Spreads keep the links guarded.
    pub proof fn lemma_spreads_keep_guard(self, t: nat)
        requires
            self.wf(),
            self.all_links_guarded(),
        ensures
            self.spread_times(t).all_links_guarded(),
        decreases t,
    {
        if t > 0 {
            self.lemma_spreads_keep_guard((t - 1) as nat);
            self.lemma_spreads_keep_links((t - 1) as nat);
            self.spread_times((t - 1) as nat).lemma_spread_keeps_guard();
        }
    }

    /// Along a walk that begins at a queued creature, the creature `j` links
    /// on has control after `j` passes and is `Controlled` after one more.
    proof fn lemma_walk_gets_control(self, path: Seq<int>, j: int)
        requires
            self.wf(),
            self.all_links_guarded(),
            self.is_path(path),
            0 <= path[0] < self.members.len(),
            self.is_spreading(path[0]),
            0 <= j < path.len(),
        ensures
            0 <= path[j] < self.members.len(),
            self.spread_times(j as nat).has_control(path[j]),
            self.spread_times((j + 1) as nat).is_controlled(path[j]),
        decreases j,
    {
        self.lemma_spreads_keep_links(j as nat);
        if j > 0 {
            self.lemma_walk_gets_control(path, j - 1);
            self.lemma_spreads_keep_links((j - 1) as nat);
            self.lemma_spreads_keep_guard((j - 1) as nat);
            let before = self.spread_times((j - 1) as nat);
            let from = path[j - 1];
            let to = path[j];
            assert(self.linked(path[j - 1], path[j]));
            let k = choose|k: int|
                0 <= k < self.links.len() && #[trigger] self.links[k].joins(from, to);
            assert(self.links[k].first < self.members.len());
            assert(before.link_guarded(k));
            if before.is_spreading(from) && !before.has_control(to) {
                assert(before.offers(k, to));
            }
        }
    }

    /// A creature that a walk of `d` links joins to a queued creature is
    /// `Controlled` after `d + 1` passes, and stays so.
    pub proof fn lemma_control_arrives(self, path: Seq<int>, later: nat)
        requires
            self.wf(),
            self.all_links_guarded(),
            self.is_path(path),
            0 <= path[0] < self.members.len(),
            self.is_spreading(path[0]),
        ensures
            self.spread_times(path.len()).is_controlled(path[path.len() - 1]),
            self.spread_times(path.len()).spread_times(later).is_controlled(
                path[path.len() - 1],
            ),
    {
        self.lemma_walk_gets_control(path, path.len() - 1);
        self.lemma_spreads_keep_links(path.len());
        self.spread_times(path.len()).lemma_controlled_stays(later, path[path.len() - 1]);
    }

    /// A walk from the queue can be continued along one more link.
    proof fn lemma_queue_within_extends(self, j: int, i: int, d: int)
        requires
            self.queue_within(j, d),
            self.linked(j, i),
        ensures
            self.queue_within(i, d + 1),
    {
        let path = choose|path: Seq<int>|
            #[trigger] self.is_path(path) && 0 <= path[0] < self.members.len()
                && self.is_spreading(path[0]) && path[path.len() - 1] == j && path.len() - 1
                <= d;
        let longer = path.push(i);
        assert forall|s: int| 0 <= s < longer.len() - 1 implies self.linked(
            #[trigger] longer[s],
            longer[s + 1],
        ) by {
            if s < path.len() - 1 {
                assert(self.linked(path[s], path[s + 1]));
            }
        }
        assert(self.is_path(longer));
        assert(longer[0] == path[0] && longer[longer.len() - 1] == i);
    }

    /// A walk of at most `d` links is a walk of at most `e` links where `e`
    /// is no less.
    proof fn lemma_queue_within_widens(self, i: int, d: int, e: int)
        requires
            self.queue_within(i, d),
            d <= e,
        ensures
            self.queue_within(i, e),
    {
        let path = choose|path: Seq<int>|
            #[trigger] self.is_path(path) && 0 <= path[0] < self.members.len()
                && self.is_spreading(path[0]) && path[path.len() - 1] == i && path.len() - 1
                <= d;
        assert(self.is_path(path) && path.len() - 1 <= e);
    }

    /// Control arrives no sooner than the links allow: a creature that was
    /// not `Controlled` has control after `t` passes only where a walk of at
    /// most `t` links joins it to a creature that was queued, and is
    /// `Controlled` only where a walk of fewer than `t` links does.
    pub proof fn lemma_control_needs_a_walk(self, i: int, t: nat)
        requires
            self.wf(),
            0 <= i < self.members.len(),
            !self.is_controlled(i),
        ensures
            self.spread_times(t).has_control(i) ==> self.queue_within(i, t as int),
            self.spread_times(t).is_controlled(i) ==> t >= 1 && self.queue_within(i, t - 1),
        decreases t,
    {
        if t == 0 {
            if self.has_control(i) {
                let path = seq![i];
                assert(self.is_path(path));
                assert(path[0] == i && path[path.len() - 1] == i);
            }
        } else {
            let before = self.spread_times((t - 1) as nat);
            let after = self.spread_times(t);
            self.lemma_spreads_keep_links((t - 1) as nat);
            self.lemma_control_needs_a_walk(i, (t - 1) as nat);
            if after.is_controlled(i) {
                if before.is_controlled(i) {
                    self.lemma_queue_within_widens(i, t - 2, t - 1);
                }
            }
            if after.has_control(i) {
                if before.has_control(i) {
                    self.lemma_queue_within_widens(i, t - 1, t as int);
                } else {
                    assert(before.spread_reaches(i));
                    let k = choose|k: int| before.offers(k, i);
                    let j = self.links[k].other_end(i);
                    assert(self.links[k].first < self.members.len());
                    assert(before.is_spreading(j));
                    if self.is_controlled(j) {
                        self.lemma_controlled_stays((t - 1) as nat, j);
                    }
                    self.lemma_control_needs_a_walk(j, (t - 1) as nat);
                    assert(self.links[k].joins(j, i));
                    self.lemma_queue_within_extends(j, i, t - 1);
                }
            }
        }
    }
}

} // verus!
