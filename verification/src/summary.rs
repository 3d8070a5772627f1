//! The report as text.
//!
//! Each bump is a line `(<release>) <timestamp>\t<commit id>`, followed by one
//! line for each dependent commit, indented by two blanks:
//! `  (<mark>) <timestamp>\t<commit id>\t<subject>`. The releases come in
//! ascending order of their labels. The full view is followed by an empty
//! line, the line `>>> Reduced`, the reduced view and another empty line.

use vstd::prelude::*;
use crate::commit::{details_line, DependentCommit, DependentCommitView, DetailsView};
use crate::report::{ancestor_char, mark_of, reduced};
use crate::report::{EntryView, GroupView, ReleaseGroup, Report, ReportEntry};

verus! {

/// The line for the host commit of a bump.
pub open spec fn host_line(entry: EntryView) -> Seq<char> {
    seq!['('] + entry.release + seq![')', ' '] + details_line(entry.host_commit) + seq!['\n']
}

/// The line for a dependent commit.
pub open spec fn child_line(child: DependentCommitView) -> Seq<char> {
    seq![' ', ' ', '(', mark_of(child.is_ancestor_of_upstream), ')', ' '] + details_line(
        child.details,
    ) + seq!['\n']
}

/// The lines for the dependent commits of a bump, in their order.
pub open spec fn children_text(children: Seq<DependentCommitView>) -> Seq<char>
    decreases children.len(),
{
    if children.len() == 0 {
        Seq::empty()
    } else {
        children_text(children.drop_last()) + child_line(children.last())
    }
}

/// The lines for a bump: its host commit, then its dependent commits.
pub open spec fn entry_text(entry: EntryView) -> Seq<char> {
    host_line(entry) + children_text(entry.children)
}

/// The lines for the bumps of a release, in their order.
pub open spec fn entries_text(entries: Seq<EntryView>) -> Seq<char>
    decreases entries.len(),
{
    if entries.len() == 0 {
        Seq::empty()
    } else {
        entries_text(entries.drop_last()) + entry_text(entries.last())
    }
}

/// The lines for all the groups, in their order.
pub open spec fn summary_text(groups: Seq<GroupView>) -> Seq<char>
    decreases groups.len(),
{
    if groups.len() == 0 {
        Seq::empty()
    } else {
        summary_text(groups.drop_last()) + entries_text(groups.last().entries)
    }
}

/// The line that stands before the reduced view.
pub open spec fn reduced_heading() -> Seq<char> {
    ">>> Reduced\n"@
}

/// What a run prints: the full view, an empty line, the heading of the
/// reduced view, the reduced view and an empty line.
pub open spec fn output_text(groups: Seq<GroupView>) -> Seq<char> {
    summary_text(groups) + seq!['\n'] + reduced_heading() + summary_text(reduced(groups)) + seq![
        '\n',
    ]
}

/// Writes the fields of a commit's description.
fn write_details(out: &mut String, commit_id: &String, committed_at: &String, subject: &String)
    ensures
        final(out)@ == old(out)@ + details_line(
            DetailsView {
                commit_id: commit_id@,
                committed_at: committed_at@,
                subject: subject@,
            },
        ),
{
    out.append(committed_at.as_str());
    out.push('\t');
    out.append(commit_id.as_str());
    if !subject.as_str().is_empty() {
        out.push('\t');
        out.append(subject.as_str());
    }
    assert(out@ =~= old(out)@ + details_line(
        DetailsView { commit_id: commit_id@, committed_at: committed_at@, subject: subject@ },
    ));
}

/// Writes the line for a dependent commit.
fn write_child(out: &mut String, child: &DependentCommit)
    ensures
        final(out)@ == old(out)@ + child_line(child@),
{
    out.push(' ');
    out.push(' ');
    out.push('(');
    out.push(ancestor_char(child.is_ancestor_of_upstream));
    out.push(')');
    out.push(' ');
    let ghost head = out@;
    write_details(out, &child.commit_id, &child.committed_at, &child.subject);
    out.push('\n');
    assert(head =~= old(out)@ + seq![
        ' ',
        ' ',
        '(',
        mark_of(child.is_ancestor_of_upstream),
        ')',
        ' ',
    ]);
    assert(out@ =~= old(out)@ + child_line(child@));
}

/// Writes the lines for a bump.
fn write_entry(out: &mut String, entry: &ReportEntry)
    ensures
        final(out)@ == old(out)@ + entry_text(entry@),
{
    out.push('(');
    out.append(entry.release.as_str());
    out.push(')');
    out.push(' ');
    write_details(
        out,
        &entry.host_commit.commit_id,
        &entry.host_commit.committed_at,
        &entry.host_commit.subject,
    );
    out.push('\n');
    assert(out@ =~= old(out)@ + host_line(entry@));
    let ghost children = entry.children.deep_view();
    let mut i: usize = 0;
    assert(children.take(0) =~= Seq::<DependentCommitView>::empty());
    assert(out@ + Seq::<char>::empty() =~= out@);
    while i < entry.children.len()
        invariant
            i <= entry.children.len(),
            children == entry.children.deep_view(),
            out@ == old(out)@ + host_line(entry@) + children_text(children.take(i as int)),
        decreases entry.children.len() - i,
    {
        let ghost before = out@;
        proof {
            assert(children.take(i + 1).drop_last() =~= children.take(i as int));
            assert(children.take(i + 1).last() == entry.children[i as int]@);
        }
        write_child(out, &entry.children[i]);
        i = i + 1;
        assert(out@ =~= old(out)@ + host_line(entry@) + children_text(children.take(i as int)));
    }
    assert(children.take(i as int) =~= children);
    assert(out@ =~= old(out)@ + entry_text(entry@));
}

/// Writes the lines for the bumps of a release.
fn write_group(out: &mut String, group: &ReleaseGroup)
    ensures
        final(out)@ == old(out)@ + entries_text(group@.entries),
{
    let ghost entries = group.entries.deep_view();
    let mut i: usize = 0;
    assert(entries.take(0) =~= Seq::<EntryView>::empty());
    assert(out@ + Seq::<char>::empty() =~= out@);
    while i < group.entries.len()
        invariant
            i <= group.entries.len(),
            entries == group.entries.deep_view(),
            out@ == old(out)@ + entries_text(entries.take(i as int)),
        decreases group.entries.len() - i,
    {
        proof {
            assert(entries.take(i + 1).drop_last() =~= entries.take(i as int));
            assert(entries.take(i + 1).last() == group.entries[i as int]@);
        }
        write_entry(out, &group.entries[i]);
        i = i + 1;
        assert(out@ =~= old(out)@ + entries_text(entries.take(i as int)));
    }
    assert(entries.take(i as int) =~= entries);
}

/// Writes the lines for all the groups.
fn write_summary(out: &mut String, groups: &Vec<ReleaseGroup>)
    ensures
        final(out)@ == old(out)@ + summary_text(groups.deep_view()),
{
    let ghost all = groups.deep_view();
    let mut i: usize = 0;
    assert(all.take(0) =~= Seq::<GroupView>::empty());
    assert(out@ + Seq::<char>::empty() =~= out@);
    while i < groups.len()
        invariant
            i <= groups.len(),
            all == groups.deep_view(),
            out@ == old(out)@ + summary_text(all.take(i as int)),
        decreases groups.len() - i,
    {
        proof {
            assert(all.take(i + 1).drop_last() =~= all.take(i as int));
            assert(all.take(i + 1).last() == groups[i as int]@);
        }
        write_group(out, &groups[i]);
        i = i + 1;
        assert(out@ =~= old(out)@ + summary_text(all.take(i as int)));
    }
    assert(all.take(i as int) =~= all);
}

impl Report {
    /// The full view: every release with every bump and every dependent
    /// commit.
    pub fn render(&self) -> (text: String)
        ensures
            text@ == summary_text(self@),
    {
        let mut text = String::new();
        write_summary(&mut text, self.groups());
        assert(Seq::<char>::empty() + summary_text(self@) =~= summary_text(self@));
        text
    }

    /// The reduced view: the releases that shipped a dependent commit which
    /// upstream does not reach, with every bump of theirs.
    pub fn render_reduced(&self) -> (text: String)
        ensures
            text@ == summary_text(reduced(self@)),
    {
        self.reduced().render()
    }

    /// What a run prints: both views, the reduced one under its heading.
    pub fn render_output(&self) -> (text: String)
        ensures
            text@ == output_text(self@),
    {
        let mut text = String::new();
        write_summary(&mut text, self.groups());
        text.push('\n');
        text.append(">>> Reduced\n");
        let kept = self.reduced();
        write_summary(&mut text, kept.groups());
        text.push('\n');
        assert(text@ =~= output_text(self@));
        text
    }
}

} // verus!
