//! Clusters filtered incidents into groups of probable duplicates by
//! fuzzy comparison of title prefixes. Similarity is the normalized
//! Damerau-Levenshtein score of the first twenty characters of each
//! title, and thresholds are expressed in thousandths of the unit
//! interval, so the comparison `score >= threshold` is carried out
//! exactly, in integers: with edit distance `d` over prefixes of
//! maximum length `L`, the score `1 - d/L` clears a threshold of `t`
//! thousandths exactly when `1000 * d <= (1000 - t) * L`.

use vstd::prelude::*;
use vstd::string::StrSliceExecFns;
use vstd::multiset::Multiset;
use crate::incident::{ConfigError, Incident, IncidentV, incs_of, stripped_of};
use crate::seqs::{first_index, lemma_first_index};

verus! {

/// How many leading characters of a title take part in the
/// comparison.
pub const TITLE_PREFIX_LEN: usize = 20;

/// The comparison prefix of a title.
pub open spec fn trunc_title(s: Seq<char>) -> Seq<char> {
    if s.len() <= TITLE_PREFIX_LEN {
        s
    } else {
        s.subrange(0, TITLE_PREFIX_LEN as int)
    }
}

/// What `strsim::damerau_levenshtein` returns: the Damerau-Levenshtein
/// edit distance between the two character sequences.
pub uninterp spec fn edit_distance_of(a: Seq<char>, b: Seq<char>) -> nat;

/// Relies on `strsim::damerau_levenshtein`: the edit distance depends
/// on the characters of the two strings alone, and never exceeds the
/// longer length (its normalized companion, documented to lie in
/// [0.0, 1.0], is one minus the distance over the longer length).
#[verifier::external_body]
fn edit_distance(a: &str, b: &str) -> (r: usize)
    ensures
        r == edit_distance_of(a@, b@),
        r <= if a@.len() >= b@.len() {
            a@.len()
        } else {
            b@.len()
        },
{
    strsim::damerau_levenshtein(a, b)
}

/// Whether two titles' comparison prefixes are at least
/// `t` thousandths similar under the normalized edit-distance score.
/// Two empty prefixes are fully similar.
pub open spec fn similar_titles(a: Seq<char>, b: Seq<char>, t: int) -> bool {
    let ta = trunc_title(a);
    let tb = trunc_title(b);
    let len = if ta.len() >= tb.len() {
        ta.len()
    } else {
        tb.len()
    };
    if len == 0 {
        true
    } else {
        1000 * edit_distance_of(ta, tb) <= (1000 - t) * len
    }
}

/// The comparison prefix of a title, as a slice.
fn trunc_prefix(s: &str) -> (r: &str)
    ensures
        r@ == trunc_title(s@),
{
    let n = s.unicode_len();
    if n <= TITLE_PREFIX_LEN {
        s
    } else {
        s.substring_char(0, TITLE_PREFIX_LEN)
    }
}

/// Decides `similar_titles` executably.
fn titles_similar(a: &str, b: &str, t: u32) -> (r: bool)
    requires
        t <= 1000,
    ensures
        r == similar_titles(a@, b@, t as int),
{
    let ta = trunc_prefix(a);
    let tb = trunc_prefix(b);
    let la = ta.unicode_len();
    let lb = tb.unicode_len();
    let len = if la >= lb {
        la
    } else {
        lb
    };
    if len == 0 {
        true
    } else {
        let d = edit_distance(ta, tb);
        let margin: usize = 1000 - t as usize;
        proof {
            assert(len <= TITLE_PREFIX_LEN);
            assert(margin * len <= 1000 * TITLE_PREFIX_LEN) by (nonlinear_arith)
                requires
                    margin <= 1000,
                    len <= TITLE_PREFIX_LEN,
            ;
        }
        1000 * d <= margin * len
    }
}

/// A representative title and the incidents clustered under it.
#[derive(Clone, Debug)]
pub struct GroupEntry {
    pub title: String,
    pub incidents: Vec<Incident>,
}

#[verifier::ext_equal]
pub ghost struct GroupV {
    pub title: Seq<char>,
    pub incidents: Seq<IncidentV>,
}

impl View for GroupEntry {
    type V = GroupV;

    open spec fn view(&self) -> GroupV {
        GroupV { title: self.title@, incidents: incs_of(self.incidents@) }
    }
}

/// The views of a sequence of group entries.
pub open spec fn groups_view(s: Seq<GroupEntry>) -> Seq<GroupV> {
    s.map_values(|e: GroupEntry| e@)
}

/// The index of the first group whose representative title is
/// adequately similar, or the length if none is.
pub open spec fn find_slot(gs: Seq<GroupV>, title: Seq<char>, t: int) -> int {
    first_index(gs, |g: GroupV| similar_titles(title, g.title, t))
}

/// One grouping step: the incident joins the first adequately similar
/// group, or founds a new group keyed by its untruncated title.
pub open spec fn insert_inc(gs: Seq<GroupV>, inc: IncidentV, t: int) -> Seq<GroupV> {
    let k = find_slot(gs, inc.title, t);
    if k < gs.len() {
        gs.update(k, GroupV { title: gs[k].title, incidents: gs[k].incidents.push(inc) })
    } else {
        gs.push(GroupV { title: inc.title, incidents: seq![inc] })
    }
}

/// The groups that a single greedy pass over `incs`, in order, builds.
pub open spec fn group_seq(incs: Seq<IncidentV>, t: int) -> Seq<GroupV>
    decreases incs.len(),
{
    if incs.len() == 0 {
        Seq::empty()
    } else {
        insert_inc(group_seq(incs.drop_last(), t), incs.last(), t)
    }
}

/// All incidents held by a sequence of groups, group by group, in
/// order.
pub open spec fn groups_incs(gs: Seq<GroupV>) -> Seq<IncidentV>
    decreases gs.len(),
{
    if gs.len() == 0 {
        Seq::empty()
    } else {
        groups_incs(gs.drop_last()) + gs.last().incidents
    }
}

/// The grouper never creates an empty group: each group is founded
/// with the incident that opened it.
pub proof fn lemma_group_seq_nonempty(incs: Seq<IncidentV>, t: int)
    ensures
        forall|k: int|
            0 <= k < group_seq(incs, t).len() ==> (#[trigger] group_seq(incs, t)[k]).incidents.len()
                > 0,
    decreases incs.len(),
{
    if incs.len() > 0 {
        lemma_group_seq_nonempty(incs.drop_last(), t);
        let g0 = group_seq(incs.drop_last(), t);
        let x = incs.last();
        let k = find_slot(g0, x.title, t);
        crate::seqs::lemma_first_index_bounds(g0, |g: GroupV| similar_titles(x.title, g.title, t));
        let gs = group_seq(incs, t);
        assert forall|j: int| 0 <= j < gs.len() implies (#[trigger] gs[j]).incidents.len() > 0 by {
            if k < g0.len() {
                if j == k {
                    assert(gs[j].incidents.len() == g0[k].incidents.len() + 1);
                } else {
                    assert(gs[j] == g0[j]);
                }
            } else {
                if j < g0.len() {
                    assert(gs[j] == g0[j]);
                } else {
                    assert(gs[j].incidents =~= seq![x]);
                }
            }
        }
    }
}

proof fn lemma_groups_incs_update_push(gs: Seq<GroupV>, k: int, x: IncidentV)
    requires
        0 <= k < gs.len(),
    ensures
        stripped_of(
            groups_incs(
                gs.update(k, GroupV { title: gs[k].title, incidents: gs[k].incidents.push(x) }),
            ),
        ).to_multiset() == stripped_of(groups_incs(gs)).to_multiset().insert(x.stripped()),
    decreases gs.len(),
{
    broadcast use vstd::seq_lib::group_to_multiset_ensures;

    let gs2 = gs.update(k, GroupV { title: gs[k].title, incidents: gs[k].incidents.push(x) });
    if k == gs.len() - 1 {
        assert(gs2.drop_last() =~= gs.drop_last());
        assert(gs2.last() == GroupV { title: gs[k].title, incidents: gs[k].incidents.push(x) });
        let a = stripped_of(groups_incs(gs.drop_last()));
        let b = stripped_of(gs[k].incidents);
        assert(stripped_of(groups_incs(gs2)) =~= a + b.push(x.stripped()));
        assert(stripped_of(groups_incs(gs)) =~= a + b);
        vstd::seq_lib::lemma_multiset_commutative(a, b.push(x.stripped()));
        vstd::seq_lib::lemma_multiset_commutative(a, b);
        assert(b.push(x.stripped()).to_multiset() =~= b.to_multiset().insert(x.stripped()));
        assert((a + b.push(x.stripped())).to_multiset() =~= (a + b).to_multiset().insert(
            x.stripped(),
        ));
    } else {
        assert(gs2.drop_last() =~= gs.drop_last().update(
            k,
            GroupV {
                title: gs.drop_last()[k].title,
                incidents: gs.drop_last()[k].incidents.push(x),
            },
        ));
        assert(gs2.last() == gs.last());
        lemma_groups_incs_update_push(gs.drop_last(), k, x);
        let a = stripped_of(groups_incs(gs.drop_last()));
        let a2 = stripped_of(groups_incs(gs2.drop_last()));
        let b = stripped_of(gs.last().incidents);
        assert(stripped_of(groups_incs(gs2)) =~= a2 + b);
        assert(stripped_of(groups_incs(gs)) =~= a + b);
        vstd::seq_lib::lemma_multiset_commutative(a2, b);
        vstd::seq_lib::lemma_multiset_commutative(a, b);
        assert(a2.to_multiset() == a.to_multiset().insert(x.stripped()));
        assert(a.to_multiset().insert(x.stripped()).add(b.to_multiset())
            =~= a.to_multiset().add(b.to_multiset()).insert(x.stripped()));
    }
}

proof fn lemma_insert_inc_contents(gs: Seq<GroupV>, x: IncidentV, t: int)
    ensures
        stripped_of(groups_incs(insert_inc(gs, x, t))).to_multiset() == stripped_of(
            groups_incs(gs),
        ).to_multiset().insert(x.stripped()),
{
    broadcast use vstd::seq_lib::group_to_multiset_ensures;

    let k = find_slot(gs, x.title, t);
    crate::seqs::lemma_first_index_bounds(gs, |g: GroupV| similar_titles(x.title, g.title, t));
    if k < gs.len() {
        lemma_groups_incs_update_push(gs, k, x);
    } else {
        let gs2 = insert_inc(gs, x, t);
        assert(gs2 == gs.push(GroupV { title: x.title, incidents: seq![x] }));
        assert(gs2.drop_last() =~= gs);
        assert(gs2.last() == GroupV { title: x.title, incidents: seq![x] });
        let a = stripped_of(groups_incs(gs));
        assert(stripped_of(groups_incs(gs2)) =~= a.push(x.stripped()));
        assert(a.push(x.stripped()).to_multiset() =~= a.to_multiset().insert(x.stripped()));
    }
}

/// Grouping neither drops nor duplicates incidents: the groups
/// together hold exactly the incidents handed in (their POC-erased
/// views, as a multiset), and as many of them.
pub proof fn lemma_group_seq_contents(incs: Seq<IncidentV>, t: int)
    ensures
        stripped_of(groups_incs(group_seq(incs, t))).to_multiset() == stripped_of(
            incs,
        ).to_multiset(),
        groups_incs(group_seq(incs, t)).len() == incs.len(),
    decreases incs.len(),
{
    broadcast use vstd::seq_lib::group_to_multiset_ensures;

    if incs.len() == 0 {
        assert(stripped_of(groups_incs(group_seq(incs, t))) =~= Seq::<IncidentV>::empty());
        assert(stripped_of(incs) =~= Seq::<IncidentV>::empty());
        assert(Seq::<IncidentV>::empty().to_multiset() =~= Multiset::<IncidentV>::empty());
    } else {
        lemma_group_seq_contents(incs.drop_last(), t);
        let g0 = group_seq(incs.drop_last(), t);
        lemma_insert_inc_contents(g0, incs.last(), t);
        assert(stripped_of(incs) =~= stripped_of(incs.drop_last()).push(incs.last().stripped()));
        assert(stripped_of(incs).to_multiset() =~= stripped_of(incs.drop_last()).to_multiset()
            .insert(incs.last().stripped()));
        // lengths: the multisets' sizes equal the sequences' lengths
        assert(stripped_of(groups_incs(group_seq(incs, t))).len() == groups_incs(
            group_seq(incs, t),
        ).len());
        assert(stripped_of(incs).len() == incs.len());
        assert(stripped_of(groups_incs(group_seq(incs, t))).to_multiset().len() == stripped_of(
            groups_incs(group_seq(incs, t)),
        ).len());
        assert(stripped_of(incs).to_multiset().len() == stripped_of(incs).len());
    }
}

/// The insertion-ordered collection of groups.
#[derive(Clone, Debug)]
pub struct Groups {
    pub entries: Vec<GroupEntry>,
}

impl View for Groups {
    type V = Seq<GroupV>;

    open spec fn view(&self) -> Seq<GroupV> {
        groups_view(self.entries@)
    }
}

/// The index of the first group keyed exactly by `title`, or the
/// length if none is.
pub open spec fn title_slot(gs: Seq<GroupV>, title: Seq<char>) -> int {
    first_index(gs, |g: GroupV| g.title == title)
}

impl Groups {
    /// How many groups there are.
    pub fn len(&self) -> (r: usize)
        ensures
            r == self@.len(),
    {
        self.entries.len()
    }

    /// The incidents of the first group keyed exactly by `title`.
    pub fn get(&self, title: &str) -> (r: Option<&Vec<Incident>>)
        ensures
            match r {
                Some(v) => title_slot(self@, title@) < self@.len() && incs_of(v@) == self@[
                    title_slot(self@, title@)
                ].incidents,
                None => title_slot(self@, title@) == self@.len(),
            },
    {
        let ghost gvs = self@;
        let n = self.entries.len();
        let mut k: usize = 0;
        while k < n
            invariant
                n == self.entries@.len(),
                gvs == self@,
                k <= n,
                forall|j: int| 0 <= j < k ==> gvs[j].title != title@,
            decreases n - k,
        {
            if crate::text::str_eq(self.entries[k].title.as_str(), title) {
                proof {
                    lemma_first_index(gvs, |g: GroupV| g.title == title@, k as int);
                }
                return Some(&self.entries[k].incidents);
            }
            k += 1;
        }
        proof {
            lemma_first_index(gvs, |g: GroupV| g.title == title@, n as int);
        }
        None
    }

    /// Whether some group is keyed exactly by `title`.
    pub fn contains_key(&self, title: &str) -> (r: bool)
        ensures
            r == (title_slot(self@, title@) < self@.len()),
    {
        match self.get(title) {
            Some(_) => true,
            None => false,
        }
    }
}

/// Clusters the incidents into groups of fuzzy-similar titles with a
/// single greedy pass in input order; each incident joins the first
/// existing group whose representative title compares at or above the
/// threshold, and founds a new group otherwise. The threshold is in
/// thousandths; one outside [0, 1000] is a configuration error.
pub fn group_by_similar_title(incidents: Vec<Incident>, threshold_milli: i64) -> (r: Result<
    Groups,
    ConfigError,
>)
    ensures
        r is Ok <==> 0 <= threshold_milli <= 1000,
        r matches Err(e) ==> e == ConfigError::InvalidThreshold,
        r matches Ok(g) ==> g@ == group_seq(incs_of(incidents@), threshold_milli as int),
        r matches Ok(g) ==> forall|k: int|
            0 <= k < g@.len() ==> (#[trigger] g@[k]).incidents.len() > 0,
{
    if threshold_milli < 0 || threshold_milli > 1000 {
        return Err(ConfigError::InvalidThreshold);
    }
    let t: u32 = threshold_milli as u32;
    let n = incidents.len();
    let mut entries: Vec<GroupEntry> = Vec::new();
    let mut idx: usize = 0;
    while idx < n
        invariant
            n == incidents@.len(),
            t == threshold_milli,
            t <= 1000,
            idx <= n,
            groups_view(entries@) == group_seq(
                incs_of(incidents@).take(idx as int),
                t as int,
            ),
        decreases n - idx,
    {
        let ghost gvs = groups_view(entries@);
        let inc = incidents[idx].duplicate();
        proof {
            assert(incs_of(incidents@).take(idx + 1).drop_last() =~= incs_of(incidents@).take(
                idx as int,
            ));
            assert(incs_of(incidents@).take(idx + 1).last() == incs_of(incidents@)[idx as int]);
        }
        let slot = find_group_slot(&entries, inc.title.as_str(), t);
        if slot < entries.len() {
            let mut entry = entries.remove(slot);
            entry.incidents.push(inc);
            entries.insert(slot, entry);
            proof {
                assert(groups_view(entries@) =~~= insert_inc(
                    gvs,
                    incs_of(incidents@)[idx as int],
                    t as int,
                ));
            }
        } else {
            let title = inc.title.clone();
            let mut group: Vec<Incident> = Vec::new();
            group.push(inc);
            entries.push(GroupEntry { title, incidents: group });
            proof {
                assert(groups_view(entries@) =~~= insert_inc(
                    gvs,
                    incs_of(incidents@)[idx as int],
                    t as int,
                ));
            }
        }
        idx += 1;
    }
    proof {
        assert(incs_of(incidents@).take(n as int) =~= incs_of(incidents@));
        lemma_group_seq_nonempty(incs_of(incidents@), t as int);
    }
    Ok(Groups { entries })
}

/// Finds the first group whose representative title is adequately
/// similar to `title`.
fn find_group_slot(entries: &Vec<GroupEntry>, title: &str, t: u32) -> (r: usize)
    requires
        t <= 1000,
    ensures
        r as int == find_slot(groups_view(entries@), title@, t as int),
        r <= entries@.len(),
{
    let ghost gvs = groups_view(entries@);
    let n = entries.len();
    let mut k: usize = 0;
    while k < n
        invariant
            n == entries@.len(),
            gvs == groups_view(entries@),
            t <= 1000,
            k <= n,
            forall|j: int| 0 <= j < k ==> !similar_titles(title@, gvs[j].title, t as int),
        decreases n - k,
    {
        if titles_similar(title, entries[k].title.as_str(), t) {
            proof {
                lemma_first_index(gvs, |g: GroupV| similar_titles(title@, g.title, t as int), k as int);
            }
            return k;
        }
        k += 1;
    }
    proof {
        lemma_first_index(gvs, |g: GroupV| similar_titles(title@, g.title, t as int), n as int);
    }
    n
}

} // verus!
