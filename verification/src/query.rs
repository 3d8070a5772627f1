//! What a run asks of the outside and what it is told.
//!
//! The library reads no repository and no stream itself. It says what it
//! wants to know next, the caller finds out and hands the answer back.

use vstd::prelude::*;
use crate::bump::ParseError;

verus! {

/// A question to the outside.
#[derive(Debug, PartialEq, Eq)]
pub enum Query {
    /// The tags of the host repository, one to a line as
    /// `<timestamp>|<tag name>`, in ascending order of their timestamps.
    Tags,
    /// The next line of the host's log excerpt.
    NextLine,
    /// The description of a commit of the host repository: timestamp, tab,
    /// id.
    HostCommit { commit_id: String },
    /// The ids of the dependent repository's commits in a range, one to a
    /// line.
    DependentRange { range: String },
    /// The description of a commit of the dependent repository: timestamp,
    /// tab, id, tab, subject.
    DependentCommit { commit_id: String },
    /// Whether a commit of the dependent repository is an ancestor of the
    /// upstream branch.
    Ancestry { commit_id: String, upstream: String },
}

/// What a [`Query`] holds, as texts.
pub enum QueryView {
    Tags,
    NextLine,
    HostCommit { commit_id: Seq<char> },
    DependentRange { range: Seq<char> },
    DependentCommit { commit_id: Seq<char> },
    Ancestry { commit_id: Seq<char>, upstream: Seq<char> },
}

impl DeepView for Query {
    type V = QueryView;

    open spec fn deep_view(&self) -> QueryView {
        match self {
            Query::Tags => QueryView::Tags,
            Query::NextLine => QueryView::NextLine,
            Query::HostCommit { commit_id } => QueryView::HostCommit { commit_id: commit_id@ },
            Query::DependentRange { range } => QueryView::DependentRange { range: range@ },
            Query::DependentCommit { commit_id } => QueryView::DependentCommit {
                commit_id: commit_id@,
            },
            Query::Ancestry { commit_id, upstream } => QueryView::Ancestry {
                commit_id: commit_id@,
                upstream: upstream@,
            },
        }
    }
}

impl View for Query {
    type V = QueryView;

    open spec fn view(&self) -> QueryView {
        self.deep_view()
    }
}

impl Clone for Query {
    fn clone(&self) -> (copy: Self)
        ensures
            copy == *self,
    {
        match self {
            Query::Tags => Query::Tags,
            Query::NextLine => Query::NextLine,
            Query::HostCommit { commit_id } => Query::HostCommit { commit_id: commit_id.clone() },
            Query::DependentRange { range } => Query::DependentRange { range: range.clone() },
            Query::DependentCommit { commit_id } => Query::DependentCommit {
                commit_id: commit_id.clone(),
            },
            Query::Ancestry { commit_id, upstream } => Query::Ancestry {
                commit_id: commit_id.clone(),
                upstream: upstream.clone(),
            },
        }
    }
}

/// The answer to a [`Query`].
#[derive(Debug, PartialEq, Eq)]
pub enum Answer {
    /// The line that was read, or what the repository printed for a query
    /// that it carried out.
    Text(String),
    /// The log excerpt is at its end, or the repository carried the query out
    /// and reported that it failed.
    Declined,
    /// The query could not be put to the repository, or what came back could
    /// not be read as text.
    Failed,
}

/// What an [`Answer`] holds, as text.
pub enum AnswerView {
    Text(Seq<char>),
    Declined,
    Failed,
}

impl DeepView for Answer {
    type V = AnswerView;

    open spec fn deep_view(&self) -> AnswerView {
        match self {
            Answer::Text(text) => AnswerView::Text(text@),
            Answer::Declined => AnswerView::Declined,
            Answer::Failed => AnswerView::Failed,
        }
    }
}

impl View for Answer {
    type V = AnswerView;

    open spec fn view(&self) -> AnswerView {
        self.deep_view()
    }
}

impl Clone for Answer {
    fn clone(&self) -> (copy: Self)
        ensures
            copy == *self,
    {
        match self {
            Answer::Text(text) => Answer::Text(text.clone()),
            Answer::Declined => Answer::Declined,
            Answer::Failed => Answer::Failed,
        }
    }
}

/// Why a run ended without a report.
#[derive(Debug, PartialEq, Eq)]
pub enum CorrelateError {
    /// A record of the log excerpt is no submodule bump.
    Parse(ParseError),
    /// The repository does not have a commit that the query names.
    Lookup(Query),
    /// The query could not be carried out, or its answer makes no sense.
    ExternalQuery(Query),
}

/// What a [`CorrelateError`] holds, as texts.
pub enum ErrorView {
    Parse(ParseError),
    Lookup(QueryView),
    ExternalQuery(QueryView),
}

impl DeepView for CorrelateError {
    type V = ErrorView;

    open spec fn deep_view(&self) -> ErrorView {
        match self {
            CorrelateError::Parse(e) => ErrorView::Parse(*e),
            CorrelateError::Lookup(query) => ErrorView::Lookup(query@),
            CorrelateError::ExternalQuery(query) => ErrorView::ExternalQuery(query@),
        }
    }
}

impl View for CorrelateError {
    type V = ErrorView;

    open spec fn view(&self) -> ErrorView {
        self.deep_view()
    }
}

impl Clone for CorrelateError {
    fn clone(&self) -> (copy: Self)
        ensures
            copy == *self,
    {
        match self {
            CorrelateError::Parse(e) => CorrelateError::Parse(*e),
            CorrelateError::Lookup(query) => CorrelateError::Lookup(query.clone()),
            CorrelateError::ExternalQuery(query) => CorrelateError::ExternalQuery(query.clone()),
        }
    }
}

/// What a run does next.
#[derive(Debug, PartialEq, Eq)]
pub enum Step {
    /// It wants the answer to a query.
    Ask(Query),
    /// It has read the whole log excerpt; the report is complete.
    Done,
    /// It has ended without a report.
    Abort(CorrelateError),
}

/// What a [`Step`] holds, as texts.
pub enum StepView {
    Ask(QueryView),
    Done,
    Abort(ErrorView),
}

impl DeepView for Step {
    type V = StepView;

    open spec fn deep_view(&self) -> StepView {
        match self {
            Step::Ask(query) => StepView::Ask(query@),
            Step::Done => StepView::Done,
            Step::Abort(error) => StepView::Abort(error@),
        }
    }
}

impl View for Step {
    type V = StepView;

    open spec fn view(&self) -> StepView {
        self.deep_view()
    }
}

} // verus!
