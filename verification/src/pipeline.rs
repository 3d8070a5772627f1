//! A run, step by step.
//!
//! A run reads the host's tags, then the log excerpt record by record. For
//! each bump it asks for the host commit, names the release that the commit
//! falls under, asks for the dependent commits in the bump's range and, for
//! each of them in turn, for its description and whether upstream reaches
//! it. The bump is recorded once its last dependent commit is known. The run
//! is done when the log excerpt ends, also in the middle of a record, and it
//! is over at the first record or answer that cannot be used.
//!
//! The range is asked for as `<old>...<new>`: the commits that one of the two
//! ids reaches and the other does not. A bump that adds the submodule is
//! treated like any other, so its range fails to resolve where the old id
//! names no commit.

use vstd::prelude::*;
use crate::bump::{bump_of_record, joined_range, parse_record, range_expression};
use crate::bump::{BumpView, SubmoduleBump};
use crate::commit::{details_of, parse_dependent_commit, parse_host_details};
use crate::commit::{DependentCommit, DependentCommitView, DetailsView, HostCommitDetails};
use crate::lines::{lines_of, split_lines};
use crate::query::{Answer, AnswerView, CorrelateError, ErrorView, Query, QueryView, Step, StepView};
use crate::release::{parse_tags, releases_of, Release, ReleaseView};
use crate::report::{is_report, with_entry, EntryView, GroupView, Report, ReportEntry};
use crate::resolve::{release_label, resolve_release};
use crate::text::{is_blank, is_blank_text};

verus! {

/// Where a run stands, as texts.
pub enum StageView {
    /// The tags were asked for.
    Tags,
    /// The first line of a record was asked for.
    CommitLine,
    /// The second line of a record was asked for.
    StatusLine { commit_line: Seq<char> },
    /// The host commit of a bump was asked for.
    HostDetails { bump: BumpView },
    /// The range of a bump was asked for.
    Range { label: Seq<char>, host: DetailsView, range: Seq<char> },
    /// The description of the next dependent commit was asked for.
    ChildDetails {
        label: Seq<char>,
        host: DetailsView,
        ids: Seq<Seq<char>>,
        children: Seq<DependentCommitView>,
    },
    /// The ancestry of the next dependent commit was asked for.
    ChildAncestry {
        label: Seq<char>,
        host: DetailsView,
        ids: Seq<Seq<char>>,
        children: Seq<DependentCommitView>,
        pending: DetailsView,
    },
    /// The log excerpt has ended.
    Finished,
    /// The run is over.
    Failed { error: ErrorView },
}

/// A run, as texts.
pub struct RunView {
    pub submodule_path: Seq<char>,
    pub upstream: Seq<char>,
    pub releases: Seq<ReleaseView>,
    pub report: Seq<GroupView>,
    pub stage: StageView,
}

/// A run before its first answer: it has asked for the tags.
pub open spec fn initial(submodule_path: Seq<char>, upstream: Seq<char>) -> RunView {
    RunView {
        submodule_path,
        upstream,
        releases: Seq::empty(),
        report: Seq::empty(),
        stage: StageView::Tags,
    }
}

/// The run goes on to another stage and asks a query.
pub open spec fn asking(run: RunView, stage: StageView, query: QueryView) -> (RunView, StepView) {
    (RunView { stage, ..run }, StepView::Ask(query))
}

/// The run is over.
pub open spec fn failing(run: RunView, error: ErrorView) -> (RunView, StepView) {
    (RunView { stage: StageView::Failed { error }, ..run }, StepView::Abort(error))
}

/// The run is done.
pub open spec fn finishing(run: RunView) -> (RunView, StepView) {
    (RunView { stage: StageView::Finished, ..run }, StepView::Done)
}

/// The run records a bump and asks for the next record.
pub open spec fn recording(run: RunView, entry: EntryView) -> (RunView, StepView) {
    (
        RunView { report: with_entry(run.report, entry), stage: StageView::CommitLine, ..run },
        StepView::Ask(QueryView::NextLine),
    )
}

/// What is wrong where a repository gives no text in answer to a query about
/// a commit: it does not have the commit where it declined, and the query
/// itself went wrong otherwise.
pub open spec fn no_text_error(query: QueryView, answer: AnswerView) -> ErrorView {
    if answer is Declined {
        ErrorView::Lookup(query)
    } else {
        ErrorView::ExternalQuery(query)
    }
}

/// What is wrong where a repository's text describes no commit: the
/// repository does not have the commit where the text is blank, and the text
/// makes no sense otherwise.
pub open spec fn no_details_error(query: QueryView, response: Seq<char>) -> ErrorView {
    if is_blank(response) {
        ErrorView::Lookup(query)
    } else {
        ErrorView::ExternalQuery(query)
    }
}

/// What a run that waits for the tags does with an answer.
pub open spec fn after_tags(run: RunView, answer: AnswerView) -> (RunView, StepView) {
    match answer {
        AnswerView::Text(listing) => match releases_of(listing) {
            Some(releases) => asking(
                RunView { releases, ..run },
                StageView::CommitLine,
                QueryView::NextLine,
            ),
            None => failing(run, ErrorView::ExternalQuery(QueryView::Tags)),
        },
        _ => failing(run, ErrorView::ExternalQuery(QueryView::Tags)),
    }
}

/// What a run that waits for the first line of a record does with an answer.
pub open spec fn after_commit_line(run: RunView, answer: AnswerView) -> (RunView, StepView) {
    match answer {
        AnswerView::Text(line) => asking(
            run,
            StageView::StatusLine { commit_line: line },
            QueryView::NextLine,
        ),
        AnswerView::Declined => finishing(run),
        AnswerView::Failed => failing(run, ErrorView::ExternalQuery(QueryView::NextLine)),
    }
}

/// What a run that waits for the second line of a record does with an
/// answer.
pub open spec fn after_status_line(run: RunView, commit_line: Seq<char>, answer: AnswerView) -> (
    RunView,
    StepView,
) {
    match answer {
        AnswerView::Text(line) => match bump_of_record(commit_line, line, run.submodule_path) {
            Ok(bump) => asking(
                run,
                StageView::HostDetails { bump },
                QueryView::HostCommit { commit_id: bump.host_commit_id },
            ),
            Err(e) => failing(run, ErrorView::Parse(e)),
        },
        AnswerView::Declined => finishing(run),
        AnswerView::Failed => failing(run, ErrorView::ExternalQuery(QueryView::NextLine)),
    }
}

/// What a run that waits for the host commit of a bump does with an answer.
pub open spec fn after_host_details(run: RunView, bump: BumpView, answer: AnswerView) -> (
    RunView,
    StepView,
) {
    let query = QueryView::HostCommit { commit_id: bump.host_commit_id };
    match answer {
        AnswerView::Text(response) => match details_of(response) {
            Some(host) => {
                let range = joined_range(bump.start_id, bump.end_id);
                asking(
                    run,
                    StageView::Range {
                        label: release_label(run.releases, host.committed_at),
                        host,
                        range,
                    },
                    QueryView::DependentRange { range },
                )
            },
            None => failing(run, no_details_error(query, response)),
        },
        _ => failing(run, no_text_error(query, answer)),
    }
}

/// What a run that waits for the range of a bump does with an answer.
pub open spec fn after_range(
    run: RunView,
    label: Seq<char>,
    host: DetailsView,
    range: Seq<char>,
    answer: AnswerView,
) -> (RunView, StepView) {
    match answer {
        AnswerView::Text(listing) => {
            let ids = lines_of(listing);
            if ids.len() == 0 {
                recording(
                    run,
                    EntryView { release: label, host_commit: host, children: Seq::empty() },
                )
            } else {
                asking(
                    run,
                    StageView::ChildDetails { label, host, ids, children: Seq::empty() },
                    QueryView::DependentCommit { commit_id: ids[0] },
                )
            }
        },
        _ => failing(run, no_text_error(QueryView::DependentRange { range }, answer)),
    }
}

/// What a run that waits for the description of a dependent commit does with
/// an answer.
pub open spec fn after_child_details(
    run: RunView,
    label: Seq<char>,
    host: DetailsView,
    ids: Seq<Seq<char>>,
    children: Seq<DependentCommitView>,
    answer: AnswerView,
) -> (RunView, StepView) {
    let commit_id = ids[children.len() as int];
    let query = QueryView::DependentCommit { commit_id };
    match answer {
        AnswerView::Text(response) => match details_of(response) {
            Some(pending) => asking(
                run,
                StageView::ChildAncestry { label, host, ids, children, pending },
                QueryView::Ancestry { commit_id, upstream: run.upstream },
            ),
            None => failing(run, no_details_error(query, response)),
        },
        _ => failing(run, no_text_error(query, answer)),
    }
}

/// What a run that waits for the ancestry of a dependent commit does with an
/// answer: upstream reaches the commit where the repository said so, and does
/// not where it declined.
pub open spec fn after_child_ancestry(
    run: RunView,
    label: Seq<char>,
    host: DetailsView,
    ids: Seq<Seq<char>>,
    children: Seq<DependentCommitView>,
    pending: DetailsView,
    answer: AnswerView,
) -> (RunView, StepView) {
    if answer is Failed {
        failing(
            run,
            ErrorView::ExternalQuery(
                QueryView::Ancestry {
                    commit_id: ids[children.len() as int],
                    upstream: run.upstream,
                },
            ),
        )
    } else {
        let known = children.push(
            DependentCommitView { details: pending, is_ancestor_of_upstream: answer is Text },
        );
        if known.len() < ids.len() {
            asking(
                run,
                StageView::ChildDetails { label, host, ids, children: known },
                QueryView::DependentCommit { commit_id: ids[known.len() as int] },
            )
        } else {
            recording(run, EntryView { release: label, host_commit: host, children: known })
        }
    }
}

/// What a run does with an answer: where it stands afterwards, and its next
/// step. A run that is done or over stays so.
pub open spec fn next(run: RunView, answer: AnswerView) -> (RunView, StepView) {
    match run.stage {
        StageView::Tags => after_tags(run, answer),
        StageView::CommitLine => after_commit_line(run, answer),
        StageView::StatusLine { commit_line } => after_status_line(run, commit_line, answer),
        StageView::HostDetails { bump } => after_host_details(run, bump, answer),
        StageView::Range { label, host, range } => after_range(run, label, host, range, answer),
        StageView::ChildDetails { label, host, ids, children } => after_child_details(
            run,
            label,
            host,
            ids,
            children,
            answer,
        ),
        StageView::ChildAncestry { label, host, ids, children, pending } => after_child_ancestry(
            run,
            label,
            host,
            ids,
            children,
            pending,
            answer,
        ),
        StageView::Finished => (run, StepView::Done),
        StageView::Failed { error } => (run, StepView::Abort(error)),
    }
}

/// Where a run stands after a series of answers.
pub open spec fn after_answers(run: RunView, answers: Seq<AnswerView>) -> RunView
    decreases answers.len(),
{
    if answers.len() == 0 {
        run
    } else {
        next(after_answers(run, answers.drop_last()), answers.last()).0
    }
}

/// The steps that a run takes on a series of answers, one for each answer.
pub open spec fn steps_on(run: RunView, answers: Seq<AnswerView>) -> Seq<StepView>
    decreases answers.len(),
{
    if answers.len() == 0 {
        Seq::empty()
    } else {
        steps_on(run, answers.drop_last()).push(
            next(after_answers(run, answers.drop_last()), answers.last()).1,
        )
    }
}

/// A run that is done stays done, with its report as it is.
pub proof fn lemma_done_stays_done(run: RunView, answers: Seq<AnswerView>)
    requires
        run.stage is Finished,
    ensures
        after_answers(run, answers) == run,
    decreases answers.len(),
{
    if answers.len() > 0 {
        lemma_done_stays_done(run, answers.drop_last());
    }
}

/// A run that is over stays over: no answer brings it to a report.
pub proof fn lemma_over_stays_over(run: RunView, answers: Seq<AnswerView>)
    requires
        run.stage is Failed,
    ensures
        after_answers(run, answers) == run,
    decreases answers.len(),
{
    if answers.len() > 0 {
        lemma_over_stays_over(run, answers.drop_last());
    }
}

/// A run keeps a report a report, whatever it is told.
pub proof fn lemma_run_keeps_report(run: RunView, answers: Seq<AnswerView>)
    requires
        is_report(run.report),
    ensures
        is_report(after_answers(run, answers).report),
    decreases answers.len(),
{
    if answers.len() > 0 {
        lemma_run_keeps_report(run, answers.drop_last());
        let before = after_answers(run, answers.drop_last());
        lemma_step_keeps_report(before, answers.last());
    }
}

/// One answer leaves the report as it is or records one bump in it.
pub proof fn lemma_step_keeps_report(run: RunView, answer: AnswerView)
    requires
        is_report(run.report),
    ensures
        is_report(next(run, answer).0.report),
        next(run, answer).0.report == run.report || exists|entry: EntryView|
            next(run, answer).0.report == with_entry(run.report, entry),
{
    let after = next(run, answer).0;
    if after.report != run.report {
        match run.stage {
            StageView::Range { label, host, range } => {
                let entry = EntryView { release: label, host_commit: host, children: Seq::empty() };
                crate::report::lemma_with_entry_is_report(run.report, entry);
                assert(after.report == with_entry(run.report, entry));
            },
            StageView::ChildAncestry { label, host, ids, children, pending } => {
                let entry = EntryView {
                    release: label,
                    host_commit: host,
                    children: children.push(
                        DependentCommitView {
                            details: pending,
                            is_ancestor_of_upstream: answer is Text,
                        },
                    ),
                };
                crate::report::lemma_with_entry_is_report(run.report, entry);
                assert(after.report == with_entry(run.report, entry));
            },
            _ => {},
        }
    }
}

/// What a run prints is settled by how it starts and what it is told: two
/// runs that start alike and are given the same answers print the same text.
pub proof fn lemma_same_answers_same_output(
    first: RunView,
    second: RunView,
    told_first: Seq<AnswerView>,
    told_second: Seq<AnswerView>,
)
    requires
        first == second,
        told_first == told_second,
    ensures
        after_answers(first, told_first) == after_answers(second, told_second),
        steps_on(first, told_first) == steps_on(second, told_second),
        crate::summary::output_text(after_answers(first, told_first).report)
            == crate::summary::output_text(after_answers(second, told_second).report),
{
}

/// Where a run stands.
#[derive(Debug, PartialEq, Eq)]
enum Stage {
    Tags,
    CommitLine,
    StatusLine { commit_line: String },
    HostDetails { bump: SubmoduleBump },
    Range { label: String, host: HostCommitDetails, range: String },
    ChildDetails {
        label: String,
        host: HostCommitDetails,
        ids: Vec<String>,
        children: Vec<DependentCommit>,
    },
    ChildAncestry {
        label: String,
        host: HostCommitDetails,
        ids: Vec<String>,
        children: Vec<DependentCommit>,
        pending: DependentCommit,
    },
    Finished,
    Failed { error: CorrelateError },
}

impl Stage {
    spec fn deep_view(&self) -> StageView {
        match self {
            Stage::Tags => StageView::Tags,
            Stage::CommitLine => StageView::CommitLine,
            Stage::StatusLine { commit_line } => StageView::StatusLine {
                commit_line: commit_line@,
            },
            Stage::HostDetails { bump } => StageView::HostDetails { bump: bump@ },
            Stage::Range { label, host, range } => StageView::Range {
                label: label@,
                host: host@,
                range: range@,
            },
            Stage::ChildDetails { label, host, ids, children } => StageView::ChildDetails {
                label: label@,
                host: host@,
                ids: ids.deep_view(),
                children: children.deep_view(),
            },
            Stage::ChildAncestry { label, host, ids, children, pending } => StageView::ChildAncestry {
                label: label@,
                host: host@,
                ids: ids.deep_view(),
                children: children.deep_view(),
                pending: pending@.details,
            },
            Stage::Finished => StageView::Finished,
            Stage::Failed { error } => StageView::Failed { error: error@ },
        }
    }
}

/// A stage that waits for a dependent commit has one left to wait for.
pub open spec fn is_stage(stage: StageView) -> bool {
    match stage {
        StageView::ChildDetails { ids, children, .. } => children.len() < ids.len(),
        StageView::ChildAncestry { ids, children, .. } => children.len() < ids.len(),
        _ => true,
    }
}

/// A run in the making.
#[derive(Debug, PartialEq, Eq)]
pub struct Correlator {
    submodule_path: String,
    upstream: String,
    releases: Vec<Release>,
    report: Report,
    stage: Stage,
}

impl View for Correlator {
    type V = RunView;

    closed spec fn view(&self) -> RunView {
        RunView {
            submodule_path: self.submodule_path@,
            upstream: self.upstream@,
            releases: self.releases.deep_view(),
            report: self.report@,
            stage: self.stage.deep_view(),
        }
    }
}

impl Correlator {
    #[verifier::type_invariant]
    spec fn well_formed(self) -> bool {
        is_stage(self.stage.deep_view())
    }

    /// A run for the submodule at the given path, with the given branch of
    /// the dependent repository as upstream. Its first step is to ask for
    /// the tags.
    pub fn new(submodule_path: &str, upstream: &str) -> (start: (Correlator, Step))
        ensures
            start.0@ == initial(submodule_path@, upstream@),
            start.1@ == StepView::Ask(QueryView::Tags),
    {
        let releases: Vec<Release> = Vec::new();
        assert(releases.deep_view() =~= Seq::<ReleaseView>::empty());
        let run = Correlator {
            submodule_path: submodule_path.to_owned(),
            upstream: upstream.to_owned(),
            releases,
            report: Report::new(),
            stage: Stage::Tags,
        };
        (run, Step::Ask(Query::Tags))
    }

    /// Goes on to another stage and asks a query.
    fn ask(self, stage: Stage, query: Query) -> (after: (Correlator, Step))
        requires
            is_stage(stage.deep_view()),
        ensures
            (after.0@, after.1@) == asking(self@, stage.deep_view(), query@),
    {
        let mut run = self;
        run.stage = stage;
        (run, Step::Ask(query))
    }

    /// Ends the run with an error.
    fn fail(self, error: CorrelateError) -> (after: (Correlator, Step))
        ensures
            (after.0@, after.1@) == failing(self@, error@),
    {
        let mut run = self;
        run.stage = Stage::Failed { error: error.clone() };
        (run, Step::Abort(error))
    }

    /// Ends the run with its report complete.
    fn finish(self) -> (after: (Correlator, Step))
        ensures
            (after.0@, after.1@) == finishing(self@),
    {
        let mut run = self;
        run.stage = Stage::Finished;
        (run, Step::Done)
    }

    /// Takes the answer to the last query: the run moves on, and says what
    /// it does next.
    pub fn advance(self, answer: Answer) -> (after: (Correlator, Step))
        ensures
            (after.0@, after.1@) == next(self@, answer@),
    {
        proof {
            use_type_invariant(&self);
        }
        let Correlator { submodule_path, upstream, releases, report, stage } = self;
        let run = Correlator { submodule_path, upstream, releases, report, stage: Stage::Finished };
        match stage {
            Stage::Tags => run.on_tags(answer),
            Stage::CommitLine => run.on_commit_line(answer),
            Stage::StatusLine { commit_line } => run.on_status_line(commit_line, answer),
            Stage::HostDetails { bump } => run.on_host_details(bump, answer),
            Stage::Range { label, host, range } => run.on_range(label, host, range, answer),
            Stage::ChildDetails { label, host, ids, children } => run.on_child_details(
                label,
                host,
                ids,
                children,
                answer,
            ),
            Stage::ChildAncestry { label, host, ids, children, pending } => run.on_child_ancestry(
                label,
                host,
                ids,
                children,
                pending,
                answer,
            ),
            Stage::Finished => (run, Step::Done),
            Stage::Failed { error } => run.fail(error),
        }
    }

    /// Takes a series of answers, one after another, and gives the steps that
    /// the run took on them.
    pub fn replay(self, answers: &Vec<Answer>) -> (after: (Correlator, Vec<Step>))
        ensures
            after.0@ == after_answers(self@, answers.deep_view()),
            after.1.deep_view() == steps_on(self@, answers.deep_view()),
    {
        let ghost told = answers.deep_view();
        let ghost start = self@;
        let mut run = self;
        let mut steps: Vec<Step> = Vec::new();
        let mut i: usize = 0;
        proof {
            assert(told.take(0) =~= Seq::<AnswerView>::empty());
            assert(steps.deep_view() =~= Seq::<StepView>::empty());
        }
        while i < answers.len()
            invariant
                i <= answers.len(),
                told == answers.deep_view(),
                run@ == after_answers(start, told.take(i as int)),
                steps.deep_view() == steps_on(start, told.take(i as int)),
            decreases answers.len() - i,
        {
            let ghost before = steps.deep_view();
            proof {
                assert(told.take(i + 1).drop_last() =~= told.take(i as int));
                assert(told.take(i + 1).last() == answers[i as int]@);
            }
            let (moved, step) = run.advance(answers[i].clone());
            run = moved;
            steps.push(step);
            assert(steps.deep_view() =~= before.push(step@));
            i = i + 1;
        }
        assert(told.take(i as int) =~= told);
        (run, steps)
    }

    /// The report, once the run is done. A run that has not come to its end,
    /// or that is over, has no report to give.
    pub fn into_report(self) -> (report: Option<Report>)
        ensures
            match report {
                Some(r) => self@.stage is Finished && r@ == self@.report && is_report(r@),
                None => !(self@.stage is Finished),
            },
    {
        match self.stage {
            Stage::Finished => {
                let report = self.report;
                let _ = report.groups();
                Some(report)
            },
            _ => None,
        }
    }

    fn on_tags(self, answer: Answer) -> (after: (Correlator, Step))
        ensures
            (after.0@, after.1@) == after_tags(self@, answer@),
    {
        match answer {
            Answer::Text(listing) => match parse_tags(listing.as_str()) {
                Some(releases) => {
                    let Correlator { submodule_path, upstream, releases: _, report, stage: _ } =
                        self;
                    let run = Correlator {
                        submodule_path,
                        upstream,
                        releases,
                        report,
                        stage: Stage::CommitLine,
                    };
                    (run, Step::Ask(Query::NextLine))
                },
                None => self.fail(CorrelateError::ExternalQuery(Query::Tags)),
            },
            _ => self.fail(CorrelateError::ExternalQuery(Query::Tags)),
        }
    }

    fn on_commit_line(self, answer: Answer) -> (after: (Correlator, Step))
        ensures
            (after.0@, after.1@) == after_commit_line(self@, answer@),
    {
        match answer {
            Answer::Text(line) => self.ask(Stage::StatusLine { commit_line: line }, Query::NextLine),
            Answer::Declined => self.finish(),
            Answer::Failed => self.fail(CorrelateError::ExternalQuery(Query::NextLine)),
        }
    }

    fn on_status_line(self, commit_line: String, answer: Answer) -> (after: (Correlator, Step))
        ensures
            (after.0@, after.1@) == after_status_line(self@, commit_line@, answer@),
    {
        match answer {
            Answer::Text(line) => match parse_record(
                commit_line.as_str(),
                line.as_str(),
                self.submodule_path.as_str(),
            ) {
                Ok(bump) => {
                    let query = Query::HostCommit { commit_id: bump.host_commit_id.clone() };
                    self.ask(Stage::HostDetails { bump }, query)
                },
                Err(e) => self.fail(CorrelateError::Parse(e)),
            },
            Answer::Declined => self.finish(),
            Answer::Failed => self.fail(CorrelateError::ExternalQuery(Query::NextLine)),
        }
    }

    fn on_host_details(self, bump: SubmoduleBump, answer: Answer) -> (after: (Correlator, Step))
        ensures
            (after.0@, after.1@) == after_host_details(self@, bump@, answer@),
    {
        let query = Query::HostCommit { commit_id: bump.host_commit_id.clone() };
        match answer {
            Answer::Text(response) => match parse_host_details(response.as_str()) {
                Some(host) => {
                    let label = resolve_release(&self.releases, host.committed_at.as_str());
                    let range = range_expression(&bump);
                    let ask = Query::DependentRange { range: range.clone() };
                    self.ask(Stage::Range { label, host, range }, ask)
                },
                None => {
                    let error = error_without_details(query, response.as_str());
                    self.fail(error)
                },
            },
            _ => {
                let error = error_without_text(query, &answer);
                self.fail(error)
            },
        }
    }

    fn on_range(self, label: String, host: HostCommitDetails, range: String, answer: Answer) -> (after:
        (Correlator, Step))
        ensures
            (after.0@, after.1@) == after_range(self@, label@, host@, range@, answer@),
    {
        match answer {
            Answer::Text(listing) => {
                let ids = split_lines(listing.as_str());
                let children: Vec<DependentCommit> = Vec::new();
                assert(children.deep_view() =~= Seq::<DependentCommitView>::empty());
                if ids.len() == 0 {
                    self.record(ReportEntry { release: label, host_commit: host, children })
                } else {
                    assert(ids.deep_view()[0] == ids[0]@);
                    let query = Query::DependentCommit { commit_id: ids[0].clone() };
                    self.ask(Stage::ChildDetails { label, host, ids, children }, query)
                }
            },
            _ => {
                let error = error_without_text(Query::DependentRange { range }, &answer);
                self.fail(error)
            },
        }
    }

    fn on_child_details(
        self,
        label: String,
        host: HostCommitDetails,
        ids: Vec<String>,
        children: Vec<DependentCommit>,
        answer: Answer,
    ) -> (after: (Correlator, Step))
        requires
            children.len() < ids.len(),
        ensures
            (after.0@, after.1@) == after_child_details(
                self@,
                label@,
                host@,
                ids.deep_view(),
                children.deep_view(),
                answer@,
            ),
    {
        assert(ids.deep_view()[children.len() as int] == ids[children.len() as int]@);
        assert(children.deep_view().len() == children.len());
        let query = Query::DependentCommit { commit_id: ids[children.len()].clone() };
        match answer {
            Answer::Text(response) => match parse_dependent_commit(response.as_str(), false) {
                Some(pending) => {
                    let ask = Query::Ancestry {
                        commit_id: ids[children.len()].clone(),
                        upstream: self.upstream.clone(),
                    };
                    self.ask(Stage::ChildAncestry { label, host, ids, children, pending }, ask)
                },
                None => {
                    let error = error_without_details(query, response.as_str());
                    self.fail(error)
                },
            },
            _ => {
                let error = error_without_text(query, &answer);
                self.fail(error)
            },
        }
    }

    fn on_child_ancestry(
        self,
        label: String,
        host: HostCommitDetails,
        ids: Vec<String>,
        children: Vec<DependentCommit>,
        pending: DependentCommit,
        answer: Answer,
    ) -> (after: (Correlator, Step))
        requires
            children.len() < ids.len(),
        ensures
            (after.0@, after.1@) == after_child_ancestry(
                self@,
                label@,
                host@,
                ids.deep_view(),
                children.deep_view(),
                pending@.details,
                answer@,
            ),
    {
        assert(ids.deep_view()[children.len() as int] == ids[children.len() as int]@);
        assert(children.deep_view().len() == children.len());
        let is_ancestor = match answer {
            Answer::Text(_) => true,
            Answer::Declined => false,
            Answer::Failed => {
                let query = Query::Ancestry {
                    commit_id: ids[children.len()].clone(),
                    upstream: self.upstream.clone(),
                };
                return self.fail(CorrelateError::ExternalQuery(query));
            },
        };
        let ghost before = children.deep_view();
        let mut children = children;
        let mut child = pending;
        child.is_ancestor_of_upstream = is_ancestor;
        children.push(child);
        assert(children.deep_view() =~= before.push(child@));
        if children.len() < ids.len() {
            assert(ids.deep_view()[children.len() as int] == ids[children.len() as int]@);
            let query = Query::DependentCommit { commit_id: ids[children.len()].clone() };
            self.ask(Stage::ChildDetails { label, host, ids, children }, query)
        } else {
            self.record(ReportEntry { release: label, host_commit: host, children })
        }
    }

    /// Records a bump and asks for the next record.
    fn record(self, entry: ReportEntry) -> (after: (Correlator, Step))
        ensures
            (after.0@, after.1@) == recording(self@, entry@),
    {
        let Correlator { submodule_path, upstream, releases, report, stage: _ } = self;
        let mut report = report;
        report.record(entry);
        let run = Correlator { submodule_path, upstream, releases, report, stage: Stage::CommitLine };
        (run, Step::Ask(Query::NextLine))
    }
}

/// Names what is wrong where a repository gives no text in answer to a query
/// about a commit.
fn error_without_text(query: Query, answer: &Answer) -> (error: CorrelateError)
    ensures
        error@ == no_text_error(query@, answer@),
{
    match answer {
        Answer::Declined => CorrelateError::Lookup(query),
        _ => CorrelateError::ExternalQuery(query),
    }
}

/// Names what is wrong where a repository's text describes no commit.
fn error_without_details(query: Query, response: &str) -> (error: CorrelateError)
    ensures
        error@ == no_details_error(query@, response@),
{
    if is_blank_text(response) {
        CorrelateError::Lookup(query)
    } else {
        CorrelateError::ExternalQuery(query)
    }
}

} // verus!
