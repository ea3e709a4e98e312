//! The review decision engine: a per-group interactive state machine.
//! The engine holds the groups and the growing partition; the caller
//! reads `phase` to see which human decision is awaited, obtains the
//! answer, and hands it back through `answer_confirm` or
//! `answer_pocs`. Every filtered incident ends up in exactly one of
//! `to_review` and `excluded`.

use vstd::prelude::*;
use vstd::multiset::Multiset;
use crate::grouping::{GroupEntry, GroupV, groups_incs, groups_view, lemma_group_seq_contents, group_seq};
use crate::incident::{duplicate_users, Incident, IncidentV, incs_of, stripped_of};
use crate::user::{User, UserV, users_of};

verus! {

broadcast use vstd::seq_lib::group_to_multiset_ensures, vstd::multiset::group_multiset_axioms;

/// Which human decision the engine is awaiting.
#[derive(PartialEq, Eq, Structural, Clone, Copy, Debug)]
pub enum Phase {
    /// "Treat them as one?" for the current group (more than one
    /// incident).
    TreatAsOne,
    /// "Keep these incidents for review?" for the whole group.
    KeepGroup,
    /// One POC selection applied to every incident of the group.
    GroupPocs,
    /// "Keep this incident for review?" for the current incident.
    KeepIncident,
    /// A POC selection for the current incident alone.
    IncidentPocs,
    /// Every group has been decided.
    Done,
}

/// An incident view with the given POC selection attached.
pub open spec fn with_pocs(i: IncidentV, ps: Seq<UserV>) -> IncidentV {
    IncidentV { poc_users: Some(ps), ..i }
}

/// The views of a group's incidents, each with the given POC
/// selection attached.
pub open spec fn with_pocs_all(s: Seq<IncidentV>, ps: Seq<UserV>) -> Seq<IncidentV> {
    s.map_values(|i: IncidentV| with_pocs(i, ps))
}

/// The phase with which the engine enters group `g`: done past the
/// last group, the combined-decision question for a group of several
/// incidents, and the per-incident question otherwise.
pub open spec fn spec_entry_phase(gs: Seq<GroupV>, g: int) -> Phase {
    if g == gs.len() {
        Phase::Done
    } else if gs[g].incidents.len() > 1 {
        Phase::TreatAsOne
    } else {
        Phase::KeepIncident
    }
}

/// The per-group review state machine.
pub struct ReviewEngine {
    /// The groups under review, fixed for the whole run.
    pub groups: Vec<GroupEntry>,
    /// The group currently being decided.
    pub cursor_group: usize,
    /// The incident currently being decided, in per-incident mode.
    pub cursor_incident: usize,
    /// The decision awaited now.
    pub phase: Phase,
    /// Incidents kept for review, with their POCs attached.
    pub to_review: Vec<Incident>,
    /// Incidents excluded from review.
    pub excluded: Vec<Incident>,
}

impl ReviewEngine {
    /// The views of the groups.
    pub open spec fn gs(self) -> Seq<GroupV> {
        groups_view(self.groups@)
    }

    /// The view of the group currently being decided.
    pub open spec fn cur_group(self) -> GroupV {
        self.gs()[self.cursor_group as int]
    }

    /// The view of the incident currently being decided.
    pub open spec fn cur_incident(self) -> IncidentV {
        self.cur_group().incidents[self.cursor_incident as int]
    }

    /// The incidents already decided, in decision order.
    pub open spec fn processed(self) -> Seq<IncidentV> {
        let done = groups_incs(self.gs().take(self.cursor_group as int));
        match self.phase {
            Phase::KeepIncident | Phase::IncidentPocs => done + self.cur_group().incidents.take(
                self.cursor_incident as int,
            ),
            _ => done,
        }
    }

    /// Everything partitioned so far, POC-erased, as a multiset.
    pub open spec fn partition_ms(self) -> Multiset<IncidentV> {
        stripped_of(incs_of(self.to_review@)).to_multiset().add(
            stripped_of(incs_of(self.excluded@)).to_multiset(),
        )
    }

    /// The engine's invariant: the cursors are in range, the phase
    /// matches the position (in particular, the combined-decision
    /// question is only ever asked of a group with more than one
    /// incident), the partition holds exactly the decided incidents,
    /// and every kept incident carries a POC assignment.
    pub open spec fn wf(self) -> bool {
        &&& self.cursor_group <= self.gs().len()
        &&& (forall|k: int|
            self.cursor_group <= k < self.gs().len() ==> (#[trigger] self.gs()[k]).incidents.len()
                > 0)
        &&& match self.phase {
            Phase::Done => self.cursor_group == self.gs().len(),
            Phase::TreatAsOne | Phase::KeepGroup | Phase::GroupPocs => self.cursor_group
                < self.gs().len() && self.cur_group().incidents.len() > 1,
            Phase::KeepIncident | Phase::IncidentPocs => self.cursor_group < self.gs().len()
                && self.cursor_incident < self.cur_group().incidents.len(),
        }
        &&& self.partition_ms() == stripped_of(self.processed()).to_multiset()
        &&& forall|k: int|
            0 <= k < self.to_review@.len() ==> (#[trigger] self.to_review@[k]@).poc_users is Some
    }

    /// Whether the awaited decision is a yes/no confirmation.
    pub open spec fn awaiting_confirm(self) -> bool {
        self.phase is TreatAsOne || self.phase is KeepGroup || self.phase is KeepIncident
    }

    /// Whether the awaited decision is a POC selection.
    pub open spec fn awaiting_pocs(self) -> bool {
        self.phase is GroupPocs || self.phase is IncidentPocs
    }

    /// How the cursors and phase move once the current incident of a
    /// per-incident group is decided.
    pub open spec fn position_advanced(self, post: ReviewEngine) -> bool {
        if self.cursor_incident + 1 < self.cur_group().incidents.len() {
            &&& post.cursor_group == self.cursor_group
            &&& post.cursor_incident == self.cursor_incident + 1
            &&& post.phase is KeepIncident
        } else {
            &&& post.cursor_group == self.cursor_group + 1
            &&& post.cursor_incident == 0
            &&& post.phase == spec_entry_phase(self.gs(), self.cursor_group + 1)
        }
    }

    /// Starts a review over the given groups, none of them empty.
    pub fn new(groups: Vec<GroupEntry>) -> (e: ReviewEngine)
        requires
            forall|k: int|
                0 <= k < groups@.len() ==> (#[trigger] groups_view(groups@)[k]).incidents.len() > 0,
        ensures
            e.wf(),
            e.groups == groups,
            e.cursor_group == 0,
            e.cursor_incident == 0,
            e.to_review@.len() == 0,
            e.excluded@.len() == 0,
            e.phase == spec_entry_phase(groups_view(groups@), 0),
    {
        let phase = entry_phase_at(&groups, 0);
        let e = ReviewEngine {
            groups,
            cursor_group: 0,
            cursor_incident: 0,
            phase,
            to_review: Vec::new(),
            excluded: Vec::new(),
        };
        proof {
            assert(e.gs().take(0) =~= Seq::<GroupV>::empty());
            if e.phase is KeepIncident {
                assert(e.cur_group().incidents.take(0) =~= Seq::<IncidentV>::empty());
            }
            assert(e.processed() =~= Seq::<IncidentV>::empty());
            lemma_to_multiset_empty(stripped_of(incs_of(e.to_review@)));
            lemma_to_multiset_empty(stripped_of(incs_of(e.excluded@)));
            lemma_to_multiset_empty(stripped_of(e.processed()));
            assert(e.partition_ms() =~= stripped_of(e.processed()).to_multiset());
        }
        e
    }

    /// Hands the engine a yes/no answer to the confirmation it
    /// awaits.
    pub fn answer_confirm(&mut self, yes: bool)
        requires
            old(self).wf(),
            old(self).awaiting_confirm(),
        ensures
            final(self).wf(),
            final(self).groups == old(self).groups,
            match old(self).phase {
                Phase::TreatAsOne => {
                    &&& final(self).to_review == old(self).to_review
                    &&& final(self).excluded == old(self).excluded
                    &&& final(self).cursor_group == old(self).cursor_group
                    &&& if yes {
                        final(self).phase is KeepGroup
                    } else {
                        final(self).phase is KeepIncident && final(self).cursor_incident == 0
                    }
                },
                Phase::KeepGroup => {
                    &&& final(self).to_review == old(self).to_review
                    &&& if yes {
                        &&& final(self).excluded == old(self).excluded
                        &&& final(self).cursor_group == old(self).cursor_group
                        &&& final(self).phase is GroupPocs
                    } else {
                        &&& incs_of(final(self).excluded@) == incs_of(old(self).excluded@) + old(
                            self,
                        ).cur_group().incidents
                        &&& final(self).cursor_group == old(self).cursor_group + 1
                        &&& final(self).phase == spec_entry_phase(
                            old(self).gs(),
                            old(self).cursor_group + 1,
                        )
                    }
                },
                Phase::KeepIncident => {
                    &&& final(self).to_review == old(self).to_review
                    &&& if yes {
                        &&& final(self).excluded == old(self).excluded
                        &&& final(self).cursor_group == old(self).cursor_group
                        &&& final(self).cursor_incident == old(self).cursor_incident
                        &&& final(self).phase is IncidentPocs
                    } else {
                        &&& incs_of(final(self).excluded@) == incs_of(old(self).excluded@).push(
                            old(self).cur_incident(),
                        )
                        &&& old(self).position_advanced(*final(self))
                    }
                },
                _ => false,
            },
    {
        match self.phase {
            Phase::TreatAsOne => {
                if yes {
                    self.phase = Phase::KeepGroup;
                } else {
                    self.phase = Phase::KeepIncident;
                    self.cursor_incident = 0;
                    proof {
                        assert(self.cur_group().incidents.take(0) =~= Seq::<IncidentV>::empty());
                        assert(self.processed() =~= old(self).processed());
                    }
                }
            },
            Phase::KeepGroup => {
                if yes {
                    self.phase = Phase::GroupPocs;
                } else {
                    let g = self.cursor_group;
                    let count = self.groups[g].incidents.len();
                    let ghost pre_excluded = incs_of(self.excluded@);
                    let ghost group_incs = self.cur_group().incidents;
                    let mut j: usize = 0;
                    proof {
                        assert(pre_excluded + group_incs.take(0) =~= pre_excluded);
                    }
                    while j < count
                        invariant
                            old(self).wf(),
                            old(self).phase is KeepGroup,
                            self.groups == old(self).groups,
                            self.to_review == old(self).to_review,
                            self.phase == old(self).phase,
                            self.cursor_group == old(self).cursor_group,
                            self.cursor_incident == old(self).cursor_incident,
                            g == old(self).cursor_group,
                            g < self.groups@.len(),
                            pre_excluded == incs_of(old(self).excluded@),
                            group_incs == old(self).cur_group().incidents,
                            group_incs == incs_of(self.groups@[g as int].incidents@),
                            count == group_incs.len(),
                            j <= count,
                            incs_of(self.excluded@) == pre_excluded + group_incs.take(j as int),
                        decreases count - j,
                    {
                        let inc = self.groups[g].incidents[j].duplicate();
                        let ghost snap = self.excluded@;
                        proof {
                            assert(inc@ == group_incs[j as int]);
                        }
                        self.excluded.push(inc);
                        proof {
                            assert(self.excluded@ == snap.push(inc));
                            assert(incs_of(self.excluded@) =~= incs_of(snap).push(inc@));
                            assert(group_incs.take(j + 1) =~= group_incs.take(j as int).push(
                                group_incs[j as int],
                            ));
                            assert((pre_excluded + group_incs.take(j as int)).push(inc@) =~=
                            pre_excluded + group_incs.take(j as int).push(inc@));
                            assert(incs_of(self.excluded@) == pre_excluded + group_incs.take(
                                j + 1,
                            ));
                        }
                        j += 1;
                    }
                    proof {
                        assert(group_incs.take(count as int) =~= group_incs);
                    }
                    let glen = self.groups.len();
                    proof {
                        assert(g < glen);
                    }
                    self.cursor_group = g + 1;
                    self.cursor_incident = 0;
                    let next = entry_phase_at(&self.groups, g + 1);
                    self.phase = next;
                    proof {
                        lemma_finish_group_excluded(*old(self), *self);
                    }
                }
            },
            Phase::KeepIncident => {
                if yes {
                    self.phase = Phase::IncidentPocs;
                } else {
                    let g = self.cursor_group;
                    let i = self.cursor_incident;
                    let inc = self.groups[g].incidents[i].duplicate();
                    proof {
                        assert(inc@ == old(self).cur_incident());
                    }
                    self.excluded.push(inc);
                    proof {
                        assert(incs_of(self.excluded@) =~= incs_of(old(self).excluded@).push(
                            old(self).cur_incident(),
                        ));
                    }
                    self.advance_position();
                    proof {
                        lemma_step_incident_excluded(*old(self), *self);
                    }
                }
            },
            _ => {
                proof {
                    assert(false);
                }
            },
        }
    }

    /// Hands the engine the POC selection it awaits; an empty
    /// selection is a valid, explicit choice.
    pub fn answer_pocs(&mut self, pocs: Vec<User>)
        requires
            old(self).wf(),
            old(self).awaiting_pocs(),
        ensures
            final(self).wf(),
            final(self).groups == old(self).groups,
            final(self).excluded == old(self).excluded,
            match old(self).phase {
                Phase::GroupPocs => {
                    &&& incs_of(final(self).to_review@) == incs_of(old(self).to_review@)
                        + with_pocs_all(old(self).cur_group().incidents, users_of(pocs@))
                    &&& final(self).cursor_group == old(self).cursor_group + 1
                    &&& final(self).phase == spec_entry_phase(
                        old(self).gs(),
                        old(self).cursor_group + 1,
                    )
                },
                Phase::IncidentPocs => {
                    &&& incs_of(final(self).to_review@) == incs_of(old(self).to_review@).push(
                        with_pocs(old(self).cur_incident(), users_of(pocs@)),
                    )
                    &&& old(self).position_advanced(*final(self))
                },
                _ => false,
            },
    {
        match self.phase {
            Phase::GroupPocs => {
                let g = self.cursor_group;
                let count = self.groups[g].incidents.len();
                let ghost pre_review = incs_of(self.to_review@);
                let ghost group_incs = self.cur_group().incidents;
                let mut j: usize = 0;
                proof {
                    assert(with_pocs_all(group_incs.take(0), users_of(pocs@)) =~= Seq::<
                        IncidentV,
                    >::empty());
                    assert(pre_review + with_pocs_all(group_incs.take(0), users_of(pocs@))
                        =~= pre_review);
                }
                while j < count
                    invariant
                        old(self).wf(),
                        old(self).phase is GroupPocs,
                        self.groups == old(self).groups,
                        self.excluded == old(self).excluded,
                        self.phase == old(self).phase,
                        self.cursor_group == old(self).cursor_group,
                        self.cursor_incident == old(self).cursor_incident,
                        g == old(self).cursor_group,
                        g < self.groups@.len(),
                        pre_review == incs_of(old(self).to_review@),
                        group_incs == old(self).cur_group().incidents,
                        group_incs == incs_of(self.groups@[g as int].incidents@),
                        count == group_incs.len(),
                        j <= count,
                        incs_of(self.to_review@) == pre_review + with_pocs_all(
                            group_incs.take(j as int),
                            users_of(pocs@),
                        ),
                    decreases count - j,
                {
                    let mut inc = self.groups[g].incidents[j].duplicate();
                    inc.poc_users = Some(duplicate_users(&pocs));
                    let ghost snap = self.to_review@;
                    proof {
                        assert(inc@ =~= with_pocs(group_incs[j as int], users_of(pocs@)));
                    }
                    self.to_review.push(inc);
                    proof {
                        assert(self.to_review@ == snap.push(inc));
                        assert(incs_of(self.to_review@) =~= incs_of(snap).push(inc@));
                        assert(with_pocs_all(group_incs.take(j + 1), users_of(pocs@)) =~=
                        with_pocs_all(group_incs.take(j as int), users_of(pocs@)).push(
                            with_pocs(group_incs[j as int], users_of(pocs@)),
                        ));
                        assert((pre_review + with_pocs_all(
                            group_incs.take(j as int),
                            users_of(pocs@),
                        )).push(inc@) =~= pre_review + with_pocs_all(
                            group_incs.take(j as int),
                            users_of(pocs@),
                        ).push(inc@));
                        assert(incs_of(self.to_review@) == pre_review + with_pocs_all(
                            group_incs.take(j + 1),
                            users_of(pocs@),
                        ));
                    }
                    j += 1;
                }
                proof {
                    assert(group_incs.take(count as int) =~= group_incs);
                }
                let glen = self.groups.len();
                proof {
                    assert(g < glen);
                }
                self.cursor_group = g + 1;
                self.cursor_incident = 0;
                let next = entry_phase_at(&self.groups, g + 1);
                self.phase = next;
                proof {
                    lemma_finish_group_review(*old(self), *self, users_of(pocs@));
                }
            },
            Phase::IncidentPocs => {
                let g = self.cursor_group;
                let i = self.cursor_incident;
                let mut inc = self.groups[g].incidents[i].duplicate();
                inc.poc_users = Some(duplicate_users(&pocs));
                proof {
                    assert(inc@ =~= with_pocs(old(self).cur_incident(), users_of(pocs@)));
                }
                self.to_review.push(inc);
                proof {
                    assert(incs_of(self.to_review@) =~= incs_of(old(self).to_review@).push(
                        with_pocs(old(self).cur_incident(), users_of(pocs@)),
                    ));
                }
                self.advance_position();
                proof {
                    lemma_step_incident_review(*old(self), *self, users_of(pocs@));
                }
            },
            _ => {
                proof {
                    assert(false);
                }
            },
        }
    }

    /// Moves past the current incident of a per-incident group:
    /// either to the group's next incident or into the next group.
    fn advance_position(&mut self)
        requires
            old(self).cursor_group < old(self).gs().len(),
            old(self).cursor_incident < old(self).cur_group().incidents.len(),
        ensures
            final(self).groups == old(self).groups,
            final(self).to_review == old(self).to_review,
            final(self).excluded == old(self).excluded,
            old(self).position_advanced(*final(self)),
    {
        let g = self.cursor_group;
        let i = self.cursor_incident;
        let glen = self.groups.len();
        proof {
            assert(g < glen);
        }
        let count = self.groups[g].incidents.len();
        if i + 1 < count {
            self.cursor_incident = i + 1;
            self.phase = Phase::KeepIncident;
        } else {
            self.cursor_group = g + 1;
            self.cursor_incident = 0;
            let next = entry_phase_at(&self.groups, g + 1);
            self.phase = next;
        }
    }
}

/// Computes the phase with which the engine enters group `g`.
fn entry_phase_at(groups: &Vec<GroupEntry>, g: usize) -> (p: Phase)
    requires
        g <= groups@.len(),
    ensures
        p == spec_entry_phase(groups_view(groups@), g as int),
{
    if g == groups.len() {
        Phase::Done
    } else if groups[g].incidents.len() > 1 {
        Phase::TreatAsOne
    } else {
        Phase::KeepIncident
    }
}

/// An empty sequence has the empty multiset.
proof fn lemma_to_multiset_empty(s: Seq<IncidentV>)
    requires
        s.len() == 0,
    ensures
        s.to_multiset() == Multiset::<IncidentV>::empty(),
{
    assert forall|a: IncidentV|
        s.to_multiset().count(a) == Multiset::<IncidentV>::empty().count(a) by {
        assert(!s.contains(a));
    }
    assert(s.to_multiset() =~= Multiset::<IncidentV>::empty());
}

/// Attaching POCs does not change the POC-erased views.
proof fn lemma_with_pocs_all_stripped(s: Seq<IncidentV>, ps: Seq<UserV>)
    ensures
        stripped_of(with_pocs_all(s, ps)) == stripped_of(s),
{
    assert(stripped_of(with_pocs_all(s, ps)) =~~= stripped_of(s));
}

/// The concatenated contents of a prefix of groups grow by one
/// group's incidents when the prefix grows by one group.
proof fn lemma_groups_incs_take_step(gs: Seq<GroupV>, g: int)
    requires
        0 <= g < gs.len(),
    ensures
        groups_incs(gs.take(g + 1)) == groups_incs(gs.take(g)) + gs[g].incidents,
{
    assert(gs.take(g + 1).drop_last() =~= gs.take(g));
    assert(gs.take(g + 1).last() == gs[g]);
}

/// Concatenation distributes over the POC-erased multiset.
proof fn lemma_stripped_ms_concat(a: Seq<IncidentV>, b: Seq<IncidentV>)
    ensures
        stripped_of(a + b).to_multiset() == stripped_of(a).to_multiset().add(
            stripped_of(b).to_multiset(),
        ),
{
    assert(stripped_of(a + b) =~= stripped_of(a) + stripped_of(b));
    vstd::seq_lib::lemma_multiset_commutative(stripped_of(a), stripped_of(b));
}

/// Pushing one incident inserts its POC-erased view.
proof fn lemma_stripped_ms_push(a: Seq<IncidentV>, x: IncidentV)
    ensures
        stripped_of(a.push(x)).to_multiset() == stripped_of(a).to_multiset().insert(x.stripped()),
{
    assert(stripped_of(a.push(x)) =~= stripped_of(a).push(x.stripped()));
}

/// Re-establishes the invariant when the whole current group was just
/// declined: its incidents went to `excluded` unchanged.
proof fn lemma_finish_group_excluded(pre: ReviewEngine, post: ReviewEngine)
    requires
        pre.wf(),
        pre.phase is KeepGroup,
        post.groups == pre.groups,
        post.to_review == pre.to_review,
        incs_of(post.excluded@) == incs_of(pre.excluded@) + pre.cur_group().incidents,
        post.cursor_group == pre.cursor_group + 1,
        post.cursor_incident == 0,
        post.phase == spec_entry_phase(pre.gs(), pre.cursor_group + 1),
    ensures
        post.wf(),
{
    let g = pre.cursor_group as int;
    lemma_groups_incs_take_step(pre.gs(), g);
    lemma_stripped_ms_concat(groups_incs(pre.gs().take(g)), pre.cur_group().incidents);
    lemma_stripped_ms_concat(incs_of(pre.excluded@), pre.cur_group().incidents);
    if post.phase is KeepIncident {
        assert(post.cur_group().incidents.take(0) =~= Seq::<IncidentV>::empty());
        assert(post.processed() =~= groups_incs(post.gs().take(g + 1)));
    }
    assert(post.partition_ms() =~= stripped_of(post.processed()).to_multiset());
}

/// Re-establishes the invariant when the whole current group was just
/// kept: its incidents went to `to_review` with the POC selection
/// attached.
proof fn lemma_finish_group_review(pre: ReviewEngine, post: ReviewEngine, ps: Seq<UserV>)
    requires
        pre.wf(),
        pre.phase is GroupPocs,
        post.groups == pre.groups,
        post.excluded == pre.excluded,
        incs_of(post.to_review@) == incs_of(pre.to_review@) + with_pocs_all(
            pre.cur_group().incidents,
            ps,
        ),
        post.cursor_group == pre.cursor_group + 1,
        post.cursor_incident == 0,
        post.phase == spec_entry_phase(pre.gs(), pre.cursor_group + 1),
    ensures
        post.wf(),
{
    let g = pre.cursor_group as int;
    let added = with_pocs_all(pre.cur_group().incidents, ps);
    lemma_groups_incs_take_step(pre.gs(), g);
    lemma_stripped_ms_concat(groups_incs(pre.gs().take(g)), pre.cur_group().incidents);
    lemma_stripped_ms_concat(incs_of(pre.to_review@), added);
    lemma_with_pocs_all_stripped(pre.cur_group().incidents, ps);
    if post.phase is KeepIncident {
        assert(post.cur_group().incidents.take(0) =~= Seq::<IncidentV>::empty());
        assert(post.processed() =~= groups_incs(post.gs().take(g + 1)));
    }
    assert(post.partition_ms() =~= stripped_of(post.processed()).to_multiset());
    assert forall|k: int|
        0 <= k < post.to_review@.len() implies (#[trigger] post.to_review@[k]@).poc_users
        is Some by {
        assert(post.to_review@[k]@ == incs_of(post.to_review@)[k]);
        if k < pre.to_review@.len() {
            assert(incs_of(post.to_review@)[k] == incs_of(pre.to_review@)[k]);
            assert(pre.to_review@[k]@.poc_users is Some);
        } else {
            assert(incs_of(post.to_review@)[k] == added[k - pre.to_review@.len()]);
        }
    }
}

/// Re-establishes the invariant when the current incident of a
/// per-incident group was just declined.
proof fn lemma_step_incident_excluded(pre: ReviewEngine, post: ReviewEngine)
    requires
        pre.wf(),
        pre.phase is KeepIncident,
        post.groups == pre.groups,
        post.to_review == pre.to_review,
        incs_of(post.excluded@) == incs_of(pre.excluded@).push(pre.cur_incident()),
        pre.position_advanced(post),
    ensures
        post.wf(),
{
    lemma_stripped_ms_push(incs_of(pre.excluded@), pre.cur_incident());
    assert(post.partition_ms() =~= stripped_of(pre.processed()).to_multiset().insert(
        pre.cur_incident().stripped(),
    ));
    assert forall|k: int|
        0 <= k < post.to_review@.len() implies (#[trigger] post.to_review@[k]@).poc_users
        is Some by {
        assert(post.to_review@[k]@ == pre.to_review@[k]@);
    }
    lemma_step_position(pre, post);
}

/// Re-establishes the invariant when the current incident of a
/// per-incident group was just kept with the POC selection attached.
proof fn lemma_step_incident_review(pre: ReviewEngine, post: ReviewEngine, ps: Seq<UserV>)
    requires
        pre.wf(),
        pre.phase is IncidentPocs,
        post.groups == pre.groups,
        post.excluded == pre.excluded,
        incs_of(post.to_review@) == incs_of(pre.to_review@).push(
            with_pocs(pre.cur_incident(), ps),
        ),
        pre.position_advanced(post),
    ensures
        post.wf(),
{
    lemma_stripped_ms_push(incs_of(pre.to_review@), with_pocs(pre.cur_incident(), ps));
    assert(with_pocs(pre.cur_incident(), ps).stripped() =~= pre.cur_incident().stripped());
    assert(post.partition_ms() =~= stripped_of(pre.processed()).to_multiset().insert(
        pre.cur_incident().stripped(),
    ));
    assert forall|k: int|
        0 <= k < post.to_review@.len() implies (#[trigger] post.to_review@[k]@).poc_users
        is Some by {
        assert(post.to_review@[k]@ == incs_of(post.to_review@)[k]);
        if k < pre.to_review@.len() {
            assert(incs_of(post.to_review@)[k] == incs_of(pre.to_review@)[k]);
            assert(pre.to_review@[k]@.poc_users is Some);
        } else {
            assert(incs_of(post.to_review@)[k] == with_pocs(pre.cur_incident(), ps));
        }
    }
    lemma_step_position(pre, post);
}

/// The common positional part of the two per-incident steps: the
/// processed sequence grows by exactly the decided incident.
proof fn lemma_step_position(pre: ReviewEngine, post: ReviewEngine)
    requires
        pre.wf(),
        pre.phase is KeepIncident || pre.phase is IncidentPocs,
        post.groups == pre.groups,
        pre.position_advanced(post),
        post.partition_ms() == stripped_of(pre.processed()).to_multiset().insert(
            pre.cur_incident().stripped(),
        ),
        forall|k: int|
            0 <= k < post.to_review@.len() ==> (#[trigger] post.to_review@[k]@).poc_users is Some,
    ensures
        post.wf(),
{
    let g = pre.cursor_group as int;
    let i = pre.cursor_incident as int;
    let incs = pre.cur_group().incidents;
    lemma_stripped_ms_concat(groups_incs(pre.gs().take(g)), incs.take(i));
    if i + 1 < incs.len() {
        assert(incs.take(i + 1) =~= incs.take(i).push(incs[i]));
        lemma_stripped_ms_push(incs.take(i), incs[i]);
        lemma_stripped_ms_concat(groups_incs(post.gs().take(g)), incs.take(i + 1));
        assert(post.processed() == groups_incs(post.gs().take(g)) + incs.take(i + 1));
        assert(post.partition_ms() =~= stripped_of(post.processed()).to_multiset());
    } else {
        assert(incs.take(i + 1) =~= incs);
        assert(incs.take(i + 1) =~= incs.take(i).push(incs[i]));
        lemma_stripped_ms_push(incs.take(i), incs[i]);
        lemma_groups_incs_take_step(pre.gs(), g);
        lemma_stripped_ms_concat(groups_incs(pre.gs().take(g)), incs);
        if post.phase is KeepIncident {
            assert(post.cur_group().incidents.take(0) =~= Seq::<IncidentV>::empty());
            assert(post.processed() =~= groups_incs(post.gs().take(g + 1)));
        }
        assert(post.processed() == groups_incs(post.gs().take(g + 1)));
        assert(post.partition_ms() =~= stripped_of(post.processed()).to_multiset());
    }
}

/// A group with exactly one incident never awaits the "treat as one?"
/// confirmation: the engine enters it in per-incident mode directly.
pub proof fn lemma_single_incident_goes_per_incident(gs: Seq<GroupV>, g: int)
    requires
        0 <= g < gs.len(),
        gs[g].incidents.len() == 1,
    ensures
        spec_entry_phase(gs, g) == Phase::KeepIncident,
{
}

/// Whenever the "treat as one?" confirmation is awaited, the current
/// group holds more than one incident.
pub proof fn lemma_combined_prompt_needs_several(e: ReviewEngine)
    requires
        e.wf(),
        e.phase is TreatAsOne,
    ensures
        e.cur_group().incidents.len() > 1,
{
}

/// A finished engine has partitioned every incident of every group
/// into exactly one of `to_review` and `excluded`: the POC-erased
/// multisets agree, so nothing is duplicated and nothing is left out,
/// and the lengths add up.
pub proof fn lemma_partition_exact(e: ReviewEngine)
    requires
        e.wf(),
        e.phase is Done,
    ensures
        e.partition_ms() == stripped_of(groups_incs(e.gs())).to_multiset(),
        e.to_review@.len() + e.excluded@.len() == groups_incs(e.gs()).len(),
{
    assert(e.gs().take(e.cursor_group as int) =~= e.gs());
    assert(e.partition_ms().len() == stripped_of(incs_of(e.to_review@)).to_multiset().len()
        + stripped_of(incs_of(e.excluded@)).to_multiset().len());
    assert(stripped_of(incs_of(e.to_review@)).to_multiset().len() == e.to_review@.len());
    assert(stripped_of(incs_of(e.excluded@)).to_multiset().len() == e.excluded@.len());
    assert(stripped_of(groups_incs(e.gs())).to_multiset().len() == groups_incs(e.gs()).len());
}

/// End to end: over groups built by the grouper, a finished engine's
/// partition holds exactly the incidents the grouper was given — the
/// filter's output — each exactly once.
pub proof fn lemma_partition_covers_input(e: ReviewEngine, incs: Seq<IncidentV>, t: int)
    requires
        e.wf(),
        e.phase is Done,
        e.gs() == group_seq(incs, t),
    ensures
        e.partition_ms() == stripped_of(incs).to_multiset(),
        e.to_review@.len() + e.excluded@.len() == incs.len(),
{
    lemma_partition_exact(e);
    lemma_group_seq_contents(incs, t);
}

} // verus!
