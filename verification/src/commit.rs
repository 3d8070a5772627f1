//! Commits as the repositories describe them: one line with the commit's
//! timestamp, its id and, where it was asked for, its subject, with a tab
//! between them.

use vstd::prelude::*;
use crate::text::{chars_of, position, text_of, trim, trimmed};
use crate::text::{is_whitespace, lemma_trim_keeps_part};

verus! {

/// The fields of a commit's description, as texts.
pub struct DetailsView {
    pub commit_id: Seq<char>,
    pub committed_at: Seq<char>,
    pub subject: Seq<char>,
}

/// A commit of the host repository that moved the submodule pointer.
#[derive(Debug, PartialEq, Eq)]
pub struct HostCommitDetails {
    pub commit_id: String,
    pub committed_at: String,
    pub subject: String,
}

impl DeepView for HostCommitDetails {
    type V = DetailsView;

    open spec fn deep_view(&self) -> DetailsView {
        DetailsView {
            commit_id: self.commit_id@,
            committed_at: self.committed_at@,
            subject: self.subject@,
        }
    }
}

impl View for HostCommitDetails {
    type V = DetailsView;

    open spec fn view(&self) -> DetailsView {
        self.deep_view()
    }
}

impl Clone for HostCommitDetails {
    fn clone(&self) -> (copy: Self)
        ensures
            copy == *self,
    {
        HostCommitDetails {
            commit_id: self.commit_id.clone(),
            committed_at: self.committed_at.clone(),
            subject: self.subject.clone(),
        }
    }
}

/// A commit of the dependent repository, and whether upstream reaches it.
#[derive(Debug, PartialEq, Eq)]
pub struct DependentCommit {
    pub commit_id: String,
    pub committed_at: String,
    pub subject: String,
    pub is_ancestor_of_upstream: bool,
}

/// What a [`DependentCommit`] holds, as texts.
pub struct DependentCommitView {
    pub details: DetailsView,
    pub is_ancestor_of_upstream: bool,
}

impl DeepView for DependentCommit {
    type V = DependentCommitView;

    open spec fn deep_view(&self) -> DependentCommitView {
        DependentCommitView {
            details: DetailsView {
                commit_id: self.commit_id@,
                committed_at: self.committed_at@,
                subject: self.subject@,
            },
            is_ancestor_of_upstream: self.is_ancestor_of_upstream,
        }
    }
}

impl View for DependentCommit {
    type V = DependentCommitView;

    open spec fn view(&self) -> DependentCommitView {
        self.deep_view()
    }
}

impl Clone for DependentCommit {
    fn clone(&self) -> (copy: Self)
        ensures
            copy == *self,
    {
        DependentCommit {
            commit_id: self.commit_id.clone(),
            committed_at: self.committed_at.clone(),
            subject: self.subject.clone(),
            is_ancestor_of_upstream: self.is_ancestor_of_upstream,
        }
    }
}

/// The fields that a repository's answer describes a commit with: the
/// answer trimmed, the timestamp up to its first tab, the id up to the next
/// one, the subject after that. An answer without a tab describes nothing.
pub open spec fn details_of(response: Seq<char>) -> Option<DetailsView> {
    let line = trim(response);
    match line.index_of_first('\t') {
        None => None,
        Some(i) => {
            let rest = line.skip(i + 1);
            match rest.index_of_first('\t') {
                Some(j) => Some(
                    DetailsView {
                        commit_id: rest.take(j),
                        committed_at: line.take(i),
                        subject: rest.skip(j + 1),
                    },
                ),
                None => Some(
                    DetailsView {
                        commit_id: rest,
                        committed_at: line.take(i),
                        subject: Seq::empty(),
                    },
                ),
            }
        },
    }
}

/// The line that describes a commit in the report: timestamp, tab, id and,
/// where there is a subject, a tab and the subject.
pub open spec fn details_line(details: DetailsView) -> Seq<char> {
    let head = details.committed_at + seq!['\t'] + details.commit_id;
    if details.subject.len() > 0 {
        head + seq!['\t'] + details.subject
    } else {
        head
    }
}

/// Reads the three fields out of a repository's answer.
fn parse_fields(response: &str) -> (fields: Option<(String, String, String)>)
    ensures
        match fields {
            Some((commit_id, committed_at, subject)) => details_of(response@) == Some(
                DetailsView {
                    commit_id: commit_id@,
                    committed_at: committed_at@,
                    subject: subject@,
                },
            ),
            None => details_of(response@) is None,
        },
{
    let chars = chars_of(response);
    let line = trimmed(chars.as_slice());
    let total = line.len();
    proof {
        line@.index_of_first_ensures('\t');
    }
    match position(line, '\t') {
        None => None,
        Some(i) => {
            let committed_at = text_of(vstd::slice::slice_subrange(line, 0, i));
            let rest = vstd::slice::slice_subrange(line, i + 1, total);
            let rest_len = rest.len();
            proof {
                rest@.index_of_first_ensures('\t');
            }
            match position(rest, '\t') {
                Some(j) => Some(
                    (
                        text_of(vstd::slice::slice_subrange(rest, 0, j)),
                        committed_at,
                        text_of(vstd::slice::slice_subrange(rest, j + 1, rest_len)),
                    ),
                ),
                None => Some((text_of(rest), committed_at, String::new())),
            }
        },
    }
}

/// Reads the host repository's description of a commit.
pub fn parse_host_details(response: &str) -> (details: Option<HostCommitDetails>)
    ensures
        match details {
            Some(d) => details_of(response@) == Some(d@),
            None => details_of(response@) is None,
        },
{
    match parse_fields(response) {
        Some((commit_id, committed_at, subject)) => Some(
            HostCommitDetails { commit_id, committed_at, subject },
        ),
        None => None,
    }
}

/// Reads the dependent repository's description of a commit, and notes
/// whether upstream reaches the commit.
pub fn parse_dependent_commit(response: &str, is_ancestor: bool) -> (commit: Option<
    DependentCommit,
>)
    ensures
        match commit {
            Some(c) => details_of(response@) == Some(c@.details) && c.is_ancestor_of_upstream
                == is_ancestor,
            None => details_of(response@) is None,
        },
{
    match parse_fields(response) {
        Some((commit_id, committed_at, subject)) => Some(
            DependentCommit {
                commit_id,
                committed_at,
                subject,
                is_ancestor_of_upstream: is_ancestor,
            },
        ),
        None => None,
    }
}

/// The report's line for a commit is the repository's answer, trimmed.
pub proof fn lemma_details_round_trip(response: Seq<char>)
    requires
        details_of(response) is Some,
    ensures
        details_line(details_of(response).unwrap()) == trim(response),
{
    let line = trim(response);
    lemma_trim_keeps_part(response);
    line.index_of_first_ensures('\t');
    let i = line.index_of_first('\t').unwrap();
    let rest = line.skip(i + 1);
    rest.index_of_first_ensures('\t');
    assert(is_whitespace('\t'));
    match rest.index_of_first('\t') {
        Some(j) => {
            if rest.skip(j + 1).len() == 0 {
                assert(line.last() == rest[j]);
            }
            assert(line.take(i) + seq!['\t'] + rest.take(j) + seq!['\t'] + rest.skip(j + 1)
                =~= line);
        },
        None => {
            assert(line.take(i) + seq!['\t'] + rest =~= line);
        },
    }
}

} // verus!
