//! The report: what each bump brought in, grouped by the release that first
//! shipped it.
//!
//! The groups stand in ascending order of their labels, one group to a label,
//! and the entries of a group in the order in which they were recorded.

use vstd::prelude::*;
use crate::commit::{DependentCommit, DependentCommitView, DetailsView, HostCommitDetails};
use crate::order::{precedes, text_order, TextOrder};
use crate::order::{lemma_precedes_irreflexive, lemma_precedes_total, lemma_precedes_transitive};

verus! {

/// The mark printed for a dependent commit that is an ancestor of upstream.
pub const ANCESTOR_MARK: char = '\u{2713}';

/// The mark printed for a dependent commit that upstream no longer reaches.
pub const ORPHAN_MARK: char = '\u{274c}';

/// The mark that stands for the result of the ancestry check.
pub open spec fn mark_of(is_ancestor: bool) -> char {
    if is_ancestor {
        ANCESTOR_MARK
    } else {
        ORPHAN_MARK
    }
}

/// Picks the mark for a dependent commit.
pub fn ancestor_char(is_ancestor: bool) -> (mark: char)
    ensures
        mark == mark_of(is_ancestor),
{
    if is_ancestor {
        ANCESTOR_MARK
    } else {
        ORPHAN_MARK
    }
}

/// One bump in the report: the release it falls under, the host commit that
/// made it, and the dependent commits it brought in, in the order in which
/// the dependent repository listed them.
#[derive(Debug, PartialEq, Eq)]
pub struct ReportEntry {
    pub release: String,
    pub host_commit: HostCommitDetails,
    pub children: Vec<DependentCommit>,
}

/// What a [`ReportEntry`] holds, as texts.
pub struct EntryView {
    pub release: Seq<char>,
    pub host_commit: DetailsView,
    pub children: Seq<DependentCommitView>,
}

impl DeepView for ReportEntry {
    type V = EntryView;

    open spec fn deep_view(&self) -> EntryView {
        EntryView {
            release: self.release@,
            host_commit: self.host_commit@,
            children: self.children.deep_view(),
        }
    }
}

impl View for ReportEntry {
    type V = EntryView;

    open spec fn view(&self) -> EntryView {
        self.deep_view()
    }
}

impl Clone for ReportEntry {
    fn clone(&self) -> (copy: Self)
        ensures
            copy@ == self@,
    {
        let children = self.children.clone();
        assert(children.deep_view() =~= self.children.deep_view());
        ReportEntry {
            release: self.release.clone(),
            host_commit: self.host_commit.clone(),
            children,
        }
    }
}

/// The entries of one release.
#[derive(Debug, PartialEq, Eq)]
pub struct ReleaseGroup {
    pub label: String,
    pub entries: Vec<ReportEntry>,
}

/// What a [`ReleaseGroup`] holds, as texts.
pub struct GroupView {
    pub label: Seq<char>,
    pub entries: Seq<EntryView>,
}

impl DeepView for ReleaseGroup {
    type V = GroupView;

    open spec fn deep_view(&self) -> GroupView {
        GroupView { label: self.label@, entries: self.entries.deep_view() }
    }
}

impl View for ReleaseGroup {
    type V = GroupView;

    open spec fn view(&self) -> GroupView {
        self.deep_view()
    }
}

impl Clone for ReleaseGroup {
    fn clone(&self) -> (copy: Self)
        ensures
            copy@ == self@,
    {
        let entries = self.entries.clone();
        assert(entries.deep_view() =~= self.entries.deep_view());
        ReleaseGroup { label: self.label.clone(), entries }
    }
}

/// A group holds at least one entry, and only entries of its own release.
pub open spec fn is_group(group: GroupView) -> bool {
    &&& group.entries.len() > 0
    &&& forall|i: int| 0 <= i < group.entries.len() ==> (#[trigger] group.entries[i]).release
        == group.label
}

/// The groups of a report: each a group, in strictly ascending order of their
/// labels.
pub open spec fn is_report(groups: Seq<GroupView>) -> bool {
    &&& forall|i: int| 0 <= i < groups.len() ==> is_group(#[trigger] groups[i])
    &&& forall|i: int, j: int|
        #![trigger groups[i], groups[j]]
        0 <= i < j < groups.len() ==> precedes(groups[i].label, groups[j].label)
}

/// The place of a label among the groups: the number of groups at the head
/// whose labels come before it.
pub open spec fn place_of(groups: Seq<GroupView>, label: Seq<char>) -> int
    decreases groups.len(),
{
    if groups.len() > 0 && precedes(groups.first().label, label) {
        1 + place_of(groups.drop_first(), label)
    } else {
        0
    }
}

/// The groups once an entry is recorded: the entry goes behind the entries of
/// its release, or into a new group at the place of its release.
pub open spec fn with_entry(groups: Seq<GroupView>, entry: EntryView) -> Seq<GroupView> {
    let at = place_of(groups, entry.release);
    if at < groups.len() && groups[at].label == entry.release {
        groups.update(
            at,
            GroupView { label: entry.release, entries: groups[at].entries.push(entry) },
        )
    } else {
        groups.insert(at, GroupView { label: entry.release, entries: seq![entry] })
    }
}

/// The entries recorded under a label, none where the label has no group.
pub open spec fn entries_under(groups: Seq<GroupView>, label: Seq<char>) -> Seq<EntryView>
    decreases groups.len(),
{
    if groups.len() == 0 {
        Seq::empty()
    } else if groups.last().label == label {
        groups.last().entries
    } else {
        entries_under(groups.drop_last(), label)
    }
}

/// The place of a label is the first at which a group's label does not come
/// before it.
pub proof fn lemma_place_of(groups: Seq<GroupView>, label: Seq<char>)
    ensures
        0 <= place_of(groups, label) <= groups.len(),
        forall|i: int|
            0 <= i < place_of(groups, label) ==> precedes((#[trigger] groups[i]).label, label),
        place_of(groups, label) < groups.len() ==> !precedes(
            groups[place_of(groups, label)].label,
            label,
        ),
    decreases groups.len(),
{
    if groups.len() > 0 && precedes(groups.first().label, label) {
        let rest = groups.drop_first();
        lemma_place_of(rest, label);
        assert forall|i: int| 0 <= i < place_of(groups, label) implies precedes(
            (#[trigger] groups[i]).label,
            label,
        ) by {
            if i > 0 {
                assert(groups[i] == rest[i - 1]);
            }
        }
        if place_of(groups, label) < groups.len() {
            assert(groups[place_of(groups, label)] == rest[place_of(rest, label)]);
        }
    }
}

/// A place before which every label comes before the given one, and at which
/// the label does not, is the place of the given label.
pub proof fn lemma_place_found(groups: Seq<GroupView>, label: Seq<char>, at: int)
    requires
        0 <= at <= groups.len(),
        forall|i: int| 0 <= i < at ==> precedes((#[trigger] groups[i]).label, label),
        at < groups.len() ==> !precedes(groups[at].label, label),
    ensures
        place_of(groups, label) == at,
{
    lemma_place_of(groups, label);
    let place = place_of(groups, label);
    if place < at {
        assert(precedes(groups[place].label, label));
    } else if at < place {
        assert(precedes(groups[at].label, label));
    }
}

/// Recording an entry leaves a report a report.
pub proof fn lemma_with_entry_is_report(groups: Seq<GroupView>, entry: EntryView)
    requires
        is_report(groups),
    ensures
        is_report(with_entry(groups, entry)),
{
    lemma_place_of(groups, entry.release);
    let at = place_of(groups, entry.release);
    let after = with_entry(groups, entry);
    if at < groups.len() && groups[at].label == entry.release {
        let grown = after[at];
        assert(is_group(groups[at]));
        assert(is_group(grown)) by {
            assert forall|i: int| 0 <= i < grown.entries.len() implies (
            #[trigger] grown.entries[i]).release == grown.label by {
                if i < groups[at].entries.len() {
                    assert(grown.entries[i] == groups[at].entries[i]);
                }
            }
        }
        assert forall|i: int| 0 <= i < after.len() implies is_group(#[trigger] after[i]) by {
            if i != at {
                assert(after[i] == groups[i]);
            }
        }
        assert forall|i: int, j: int|
            #![trigger after[i], after[j]]
            0 <= i < j < after.len() implies precedes(after[i].label, after[j].label) by {
            assert(after[i].label == groups[i].label);
            assert(after[j].label == groups[j].label);
        }
    } else {
        assert forall|i: int| 0 <= i < after.len() implies is_group(#[trigger] after[i]) by {
            if i < at {
                assert(after[i] == groups[i]);
            } else if i > at {
                assert(after[i] == groups[i - 1]);
            }
        }
        assert forall|i: int, j: int|
            #![trigger after[i], after[j]]
            0 <= i < j < after.len() implies precedes(after[i].label, after[j].label) by {
            let from = |k: int|
                if k < at {
                    k
                } else {
                    k - 1
                };
            if i != at && j != at {
                assert(after[i] == groups[from(i)]);
                assert(after[j] == groups[from(j)]);
            } else if i == at {
                // The new label comes before the group that stood at its
                // place, and so before every later one.
                assert(after[j] == groups[j - 1]);
                lemma_precedes_total(groups[at].label, entry.release);
                if j - 1 > at {
                    assert(precedes(groups[at].label, groups[j - 1].label));
                    lemma_precedes_transitive(
                        entry.release,
                        groups[at].label,
                        groups[j - 1].label,
                    );
                }
            } else {
                assert(after[i] == groups[i]);
            }
        }
    }
}

/// Without its last group a report is a report.
pub proof fn lemma_report_without_last(groups: Seq<GroupView>)
    requires
        is_report(groups),
        groups.len() > 0,
    ensures
        is_report(groups.drop_last()),
{
    let head = groups.drop_last();
    assert forall|i: int| 0 <= i < head.len() implies is_group(#[trigger] head[i]) by {
        assert(head[i] == groups[i]);
    }
    assert forall|i: int, j: int|
        #![trigger head[i], head[j]]
        0 <= i < j < head.len() implies precedes(head[i].label, head[j].label) by {
        assert(head[i] == groups[i] && head[j] == groups[j]);
    }
}

/// The entries under the label of a group are the entries of that group.
pub proof fn lemma_entries_under_group(groups: Seq<GroupView>, i: int)
    requires
        is_report(groups),
        0 <= i < groups.len(),
    ensures
        entries_under(groups, groups[i].label) == groups[i].entries,
    decreases groups.len(),
{
    if i < groups.len() - 1 {
        assert(precedes(groups[i].label, groups[groups.len() - 1].label));
        lemma_precedes_irreflexive(groups[i].label);
        lemma_report_without_last(groups);
        assert(groups.drop_last()[i] == groups[i]);
        lemma_entries_under_group(groups.drop_last(), i);
    }
}

/// There are no entries under a label that no group has.
pub proof fn lemma_entries_under_absent(groups: Seq<GroupView>, label: Seq<char>)
    requires
        forall|i: int| 0 <= i < groups.len() ==> (#[trigger] groups[i]).label != label,
    ensures
        entries_under(groups, label) == Seq::<EntryView>::empty(),
    decreases groups.len(),
{
    if groups.len() > 0 {
        assert(groups[groups.len() - 1].label != label);
        assert forall|i: int| 0 <= i < groups.len() - 1 implies (#[trigger] groups.drop_last()[i]).label
            != label by {
            assert(groups.drop_last()[i] == groups[i]);
        }
        lemma_entries_under_absent(groups.drop_last(), label);
    }
}

/// Recording an entry puts it behind the entries of its release and leaves
/// the entries of every other release as they are.
pub proof fn lemma_with_entry_by_release(groups: Seq<GroupView>, entry: EntryView, label: Seq<char>)
    requires
        is_report(groups),
    ensures
        entries_under(with_entry(groups, entry), label) == if label == entry.release {
            entries_under(groups, label).push(entry)
        } else {
            entries_under(groups, label)
        },
{
    lemma_place_of(groups, entry.release);
    lemma_with_entry_is_report(groups, entry);
    let at = place_of(groups, entry.release);
    let after = with_entry(groups, entry);
    let found = at < groups.len() && groups[at].label == entry.release;
    // Where the groups stood before, and where they stand now.
    let now = |k: int|
        if found || k < at {
            k
        } else {
            k + 1
        };
    assert forall|k: int| 0 <= k < groups.len() implies 0 <= now(k) < after.len() && (
    #[trigger] after[now(k)]).label == groups[k].label && (k != at || !found ==> after[now(k)]
        == groups[k]) by {}
    if !found {
        assert forall|k: int| 0 <= k < groups.len() implies (#[trigger] groups[k]).label
            != entry.release by {
            lemma_precedes_irreflexive(entry.release);
            if k > at {
                assert(precedes(groups[at].label, groups[k].label));
                lemma_precedes_total(groups[at].label, entry.release);
                lemma_precedes_transitive(entry.release, groups[at].label, groups[k].label);
            }
        }
        lemma_entries_under_absent(groups, entry.release);
    } else {
        lemma_entries_under_group(groups, at);
    }
    assert(after[at].label == entry.release);
    lemma_entries_under_group(after, at);
    if label == entry.release {
        assert(entries_under(after, label) =~= entries_under(groups, label).push(entry));
    } else if exists|k: int| 0 <= k < groups.len() && (#[trigger] groups[k]).label == label {
        let k = choose|k: int| 0 <= k < groups.len() && (#[trigger] groups[k]).label == label;
        lemma_entries_under_group(groups, k);
        assert(after[now(k)] == groups[k]);
        lemma_entries_under_group(after, now(k));
    } else {
        assert forall|j: int| 0 <= j < after.len() implies (#[trigger] after[j]).label
            != label by {
            if found {
                assert(after[j].label == groups[j].label);
            } else if j < at {
                assert(after[j] == groups[j]);
            } else if j > at {
                assert(after[j] == groups[j - 1]);
            }
        }
        lemma_entries_under_absent(groups, label);
        lemma_entries_under_absent(after, label);
    }
}

/// The bump brought in a dependent commit that upstream does not reach.
pub open spec fn has_orphan_child(entry: EntryView) -> bool {
    exists|i: int|
        0 <= i < entry.children.len() && !(#[trigger] entry.children[i]).is_ancestor_of_upstream
}

/// One of the release's bumps brought in a commit that upstream does not
/// reach.
pub open spec fn has_orphan(group: GroupView) -> bool {
    exists|i: int| 0 <= i < group.entries.len() && has_orphan_child(#[trigger] group.entries[i])
}

/// The reduced view: the groups with such a commit, whole and in their order.
pub open spec fn reduced(groups: Seq<GroupView>) -> Seq<GroupView>
    decreases groups.len(),
{
    if groups.len() == 0 {
        groups
    } else if has_orphan(groups.last()) {
        reduced(groups.drop_last()).push(groups.last())
    } else {
        reduced(groups.drop_last())
    }
}

/// Every group of the reduced view is a group of the report, unchanged, with
/// a commit that upstream does not reach.
pub proof fn lemma_reduced_holds_orphans_only(groups: Seq<GroupView>)
    ensures
        forall|i: int|
            0 <= i < reduced(groups).len() ==> has_orphan(#[trigger] reduced(groups)[i])
                && groups.contains(reduced(groups)[i]),
    decreases groups.len(),
{
    if groups.len() > 0 {
        let head = groups.drop_last();
        lemma_reduced_holds_orphans_only(head);
        assert forall|i: int| 0 <= i < reduced(groups).len() implies has_orphan(
            #[trigger] reduced(groups)[i],
        ) && groups.contains(reduced(groups)[i]) by {
            if i < reduced(head).len() {
                let k = choose|k: int| 0 <= k < head.len() && head[k] == reduced(head)[i];
                assert(groups[k] == reduced(head)[i]);
            } else {
                assert(groups[groups.len() - 1] == groups.last());
            }
        }
    }
}

/// A group with a commit that upstream does not reach is in the reduced
/// view, with every one of its entries.
pub proof fn lemma_reduced_keeps_orphans(groups: Seq<GroupView>, i: int)
    requires
        0 <= i < groups.len(),
        has_orphan(groups[i]),
    ensures
        reduced(groups).contains(groups[i]),
    decreases groups.len(),
{
    let head = groups.drop_last();
    if i < groups.len() - 1 {
        lemma_reduced_keeps_orphans(head, i);
        let k = choose|k: int| 0 <= k < reduced(head).len() && reduced(head)[k] == head[i];
        assert(reduced(groups)[k] == groups[i]);
    } else {
        assert(reduced(groups)[reduced(head).len() as int] == groups[i]);
    }
}

/// The reduced view of a report is a report.
pub proof fn lemma_reduced_is_report(groups: Seq<GroupView>)
    requires
        is_report(groups),
    ensures
        is_report(reduced(groups)),
    decreases groups.len(),
{
    if groups.len() > 0 {
        let head = groups.drop_last();
        lemma_report_without_last(groups);
        lemma_reduced_is_report(head);
        lemma_reduced_holds_orphans_only(head);
        let kept = reduced(groups);
        if has_orphan(groups.last()) {
            assert forall|i: int| 0 <= i < kept.len() implies is_group(#[trigger] kept[i]) by {
                if i < reduced(head).len() {
                    assert(kept[i] == reduced(head)[i]);
                } else {
                    assert(kept[i] == groups[groups.len() - 1]);
                }
            }
            assert forall|i: int, j: int|
                #![trigger kept[i], kept[j]]
                0 <= i < j < kept.len() implies precedes(kept[i].label, kept[j].label) by {
                assert(kept[i] == reduced(head)[i]);
                if j < reduced(head).len() {
                    assert(kept[j] == reduced(head)[j]);
                } else {
                    let k = choose|k: int| 0 <= k < head.len() && head[k] == reduced(head)[i];
                    assert(groups[k] == kept[i]);
                    assert(kept[j] == groups[groups.len() - 1]);
                }
            }
        }
    }
}

/// A release whose bumps brought in only commits that upstream reaches has
/// no group in the reduced view.
pub proof fn lemma_reduced_drops_clean_release(groups: Seq<GroupView>, i: int)
    requires
        is_report(groups),
        0 <= i < groups.len(),
        !has_orphan(groups[i]),
    ensures
        forall|k: int|
            0 <= k < reduced(groups).len() ==> (#[trigger] reduced(groups)[k]).label
                != groups[i].label,
{
    lemma_reduced_holds_orphans_only(groups);
    assert forall|k: int| 0 <= k < reduced(groups).len() implies (#[trigger] reduced(
        groups,
    )[k]).label != groups[i].label by {
        let kept = reduced(groups)[k];
        let j = choose|j: int| 0 <= j < groups.len() && groups[j] == kept;
        lemma_precedes_irreflexive(groups[i].label);
        if j < i {
            assert(precedes(groups[j].label, groups[i].label));
        } else if i < j {
            assert(precedes(groups[i].label, groups[j].label));
        }
    }
}

/// The reduced view release by release: a release with a commit that
/// upstream does not reach has all its entries there, and every other
/// release has none.
pub proof fn lemma_reduced_by_release(groups: Seq<GroupView>, label: Seq<char>)
    requires
        is_report(groups),
    ensures
        entries_under(reduced(groups), label) == if exists|i: int|
            0 <= i < groups.len() && (#[trigger] groups[i]).label == label && has_orphan(groups[i]) {
            entries_under(groups, label)
        } else {
            Seq::<EntryView>::empty()
        },
{
    let kept = reduced(groups);
    lemma_reduced_is_report(groups);
    lemma_reduced_holds_orphans_only(groups);
    if exists|i: int|
        0 <= i < groups.len() && (#[trigger] groups[i]).label == label && has_orphan(groups[i]) {
        let i = choose|i: int|
            0 <= i < groups.len() && (#[trigger] groups[i]).label == label && has_orphan(groups[i]);
        lemma_reduced_keeps_orphans(groups, i);
        let k = choose|k: int| 0 <= k < kept.len() && kept[k] == groups[i];
        lemma_entries_under_group(kept, k);
        lemma_entries_under_group(groups, i);
    } else {
        assert forall|k: int| 0 <= k < kept.len() implies (#[trigger] kept[k]).label != label by {
            let j = choose|j: int| 0 <= j < groups.len() && groups[j] == kept[k];
            assert(has_orphan(groups[j]));
        }
        lemma_entries_under_absent(kept, label);
    }
}

/// Tells whether a bump brought in a commit that upstream does not reach.
pub fn entry_has_orphan(entry: &ReportEntry) -> (found: bool)
    ensures
        found == has_orphan_child(entry@),
{
    let mut i: usize = 0;
    while i < entry.children.len()
        invariant
            i <= entry.children.len(),
            forall|k: int| 0 <= k < i ==> (#[trigger] entry@.children[k]).is_ancestor_of_upstream,
        decreases entry.children.len() - i,
    {
        assert(entry@.children[i as int] == entry.children[i as int]@);
        if !entry.children[i].is_ancestor_of_upstream {
            return true;
        }
        i = i + 1;
    }
    false
}

/// Tells whether a release has a bump that brought in such a commit.
pub fn group_has_orphan(group: &ReleaseGroup) -> (found: bool)
    ensures
        found == has_orphan(group@),
{
    let mut i: usize = 0;
    while i < group.entries.len()
        invariant
            i <= group.entries.len(),
            forall|k: int| 0 <= k < i ==> !has_orphan_child(#[trigger] group@.entries[k]),
        decreases group.entries.len() - i,
    {
        assert(group@.entries[i as int] == group.entries[i as int]@);
        if entry_has_orphan(&group.entries[i]) {
            return true;
        }
        i = i + 1;
    }
    false
}

/// The report of a run.
#[derive(Debug, PartialEq, Eq)]
pub struct Report {
    groups: Vec<ReleaseGroup>,
}

impl View for Report {
    type V = Seq<GroupView>;

    closed spec fn view(&self) -> Seq<GroupView> {
        self.groups.deep_view()
    }
}

impl Report {
    #[verifier::type_invariant]
    spec fn well_formed(self) -> bool {
        is_report(self.groups.deep_view())
    }

    /// A report without entries.
    pub fn new() -> (report: Report)
        ensures
            report@ == Seq::<GroupView>::empty(),
    {
        let groups: Vec<ReleaseGroup> = Vec::new();
        assert(groups.deep_view() =~= Seq::<GroupView>::empty());
        Report { groups }
    }

    /// The groups of the report, in ascending order of their labels.
    pub fn groups(&self) -> (groups: &Vec<ReleaseGroup>)
        ensures
            groups.deep_view() == self@,
            is_report(self@),
    {
        proof {
            use_type_invariant(self);
        }
        &self.groups
    }

    /// The reduced view of the report: the releases with a bump that brought
    /// in a commit that upstream does not reach, each with all its entries.
    pub fn reduced(&self) -> (kept: Report)
        ensures
            kept@ == reduced(self@),
            is_report(kept@),
    {
        proof {
            use_type_invariant(self);
        }
        let ghost all = self.groups.deep_view();
        let mut kept: Vec<ReleaseGroup> = Vec::new();
        let mut i: usize = 0;
        proof {
            assert(kept.deep_view() =~= Seq::<GroupView>::empty());
            assert(all.take(0) =~= Seq::<GroupView>::empty());
        }
        while i < self.groups.len()
            invariant
                i <= self.groups.len(),
                all == self.groups.deep_view(),
                kept.deep_view() == reduced(all.take(i as int)),
            decreases self.groups.len() - i,
        {
            let ghost before = kept.deep_view();
            proof {
                assert(all.take(i + 1).drop_last() =~= all.take(i as int));
                assert(all.take(i + 1).last() == self.groups[i as int]@);
            }
            if group_has_orphan(&self.groups[i]) {
                let group = self.groups[i].clone();
                kept.push(group);
                assert(kept.deep_view() =~= before.push(group@));
            }
            i = i + 1;
        }
        proof {
            assert(all.take(i as int) =~= all);
            lemma_reduced_is_report(all);
        }
        Report { groups: kept }
    }

    /// Records an entry under its release, behind the entries that the
    /// release has already.
    pub fn record(&mut self, entry: ReportEntry)
        ensures
            final(self)@ == with_entry(old(self)@, entry@),
            is_report(final(self)@),
    {
        proof {
            use_type_invariant(&*self);
        }
        let mut groups: Vec<ReleaseGroup> = Vec::new();
        assert(groups.deep_view() =~= Seq::<GroupView>::empty());
        std::mem::swap(&mut self.groups, &mut groups);
        let ghost before = groups.deep_view();
        let mut at: usize = 0;
        let mut found = false;
        while at < groups.len()
            invariant_except_break
                !found,
            invariant
                at <= groups.len(),
                before == groups.deep_view(),
                forall|i: int| 0 <= i < at ==> precedes((#[trigger] before[i]).label, entry.release@),
            ensures
                at < groups.len() ==> !precedes(before[at as int].label, entry.release@),
                found == (at < groups.len() && before[at as int].label == entry.release@),
            decreases groups.len() - at,
        {
            assert(before[at as int].label == groups[at as int].label@);
            match text_order(groups[at].label.as_str(), entry.release.as_str()) {
                TextOrder::Before => {
                    at = at + 1;
                },
                TextOrder::Same => {
                    found = true;
                    proof {
                        lemma_precedes_irreflexive(entry.release@);
                    }
                    break ;
                },
                TextOrder::After => {
                    proof {
                        lemma_precedes_total(before[at as int].label, entry.release@);
                    }
                    break ;
                },
            }
        }
        proof {
            lemma_place_found(before, entry.release@, at as int);
            lemma_with_entry_is_report(before, entry@);
        }
        if found {
            let ghost grown = before[at as int].entries.push(entry@);
            groups[at].entries.push(entry);
            assert(groups[at as int].entries.deep_view() =~= grown);
            assert(groups.deep_view() =~= with_entry(before, entry@));
        } else {
            let label = entry.release.clone();
            let mut entries: Vec<ReportEntry> = Vec::new();
            entries.push(entry);
            assert(entries.deep_view() =~= seq![entry@]);
            groups.insert(at, ReleaseGroup { label, entries });
            assert(groups.deep_view() =~= with_entry(before, entry@));
        }
        self.groups = groups;
    }
}

} // verus!
