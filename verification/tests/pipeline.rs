use submodule_bumps::bump::ParseError;
use submodule_bumps::pipeline::Correlator;
use submodule_bumps::query::{Answer, CorrelateError, Query, Step};

fn text(s: &str) -> Answer {
    Answer::Text(s.to_string())
}

fn ask_next_line() -> Step {
    Step::Ask(Query::NextLine)
}

const TAGS: &str = "2018-01-01T00:00:00+00:00|v1\n2018-06-01T00:00:00+00:00|v2\n";

fn started() -> Correlator {
    let (run, step) = Correlator::new("src/tools/dep", "upstream/master");
    assert_eq!(step, Step::Ask(Query::Tags));
    let (run, step) = run.advance(text(TAGS));
    assert_eq!(step, ask_next_line());
    run
}

fn scenario_answers() -> Vec<Answer> {
    vec![
        text(TAGS),
        text("c0ffee\n"),
        text("Submodule src/tools/dep aaaa111...bbbb222:\n"),
        text("2018-03-01T00:00:00+00:00\tc0ffee\n"),
        text("d1\nd2\n"),
        text("2018-02-01 10:00:00 +0000\td1\tfirst\n"),
        text(""),
        text("2018-02-02 10:00:00 +0000\td2\tsecond\n"),
        Answer::Declined,
        Answer::Declined,
    ]
}

#[test]
fn malformed_status_line_ends_the_run_with_a_parse_error() {
    let run = started();
    let (run, step) = run.advance(text("c0ffee\n"));
    assert_eq!(step, ask_next_line());
    let (run, step) = run.advance(text("Submodule src/tools/dep aaaa111..bbbb222:\n"));
    assert_eq!(step, Step::Abort(CorrelateError::Parse(ParseError::MissingSeparator)));
    assert_eq!(run.into_report(), None);
}

#[test]
fn bump_with_an_orphan_shows_in_both_views() {
    let run = started();
    let (run, step) = run.advance(text("c0ffee\n"));
    assert_eq!(step, ask_next_line());
    let (run, step) = run.advance(text("Submodule src/tools/dep aaaa111...bbbb222:\n"));
    assert_eq!(step, Step::Ask(Query::HostCommit { commit_id: "c0ffee".to_string() }));
    let (run, step) = run.advance(text("2018-03-01T00:00:00+00:00\tc0ffee\n"));
    assert_eq!(step, Step::Ask(Query::DependentRange { range: "aaaa111...bbbb222".to_string() }));
    let (run, step) = run.advance(text("d1\nd2\n"));
    assert_eq!(step, Step::Ask(Query::DependentCommit { commit_id: "d1".to_string() }));
    let (run, step) = run.advance(text("2018-02-01 10:00:00 +0000\td1\tfirst\n"));
    assert_eq!(
        step,
        Step::Ask(Query::Ancestry {
            commit_id: "d1".to_string(),
            upstream: "upstream/master".to_string()
        })
    );
    let (run, step) = run.advance(text(""));
    assert_eq!(step, Step::Ask(Query::DependentCommit { commit_id: "d2".to_string() }));
    let (run, step) = run.advance(text("2018-02-02 10:00:00 +0000\td2\tsecond\n"));
    assert_eq!(
        step,
        Step::Ask(Query::Ancestry {
            commit_id: "d2".to_string(),
            upstream: "upstream/master".to_string()
        })
    );
    let (run, step) = run.advance(Answer::Declined);
    assert_eq!(step, ask_next_line());
    let (run, step) = run.advance(Answer::Declined);
    assert_eq!(step, Step::Done);
    let report = run.into_report().unwrap();
    let groups = report.groups();
    assert_eq!(groups.len(), 1);
    assert_eq!(groups[0].label, "v1");
    let children = &groups[0].entries[0].children;
    assert_eq!(children.len(), 2);
    assert_eq!(children[0].commit_id, "d1");
    assert!(children[0].is_ancestor_of_upstream);
    assert_eq!(children[1].commit_id, "d2");
    assert!(!children[1].is_ancestor_of_upstream);
    let lines = "(v1) 2018-03-01T00:00:00+00:00\tc0ffee\n  (✓) 2018-02-01 10:00:00 +0000\td1\tfirst\n  (❌) 2018-02-02 10:00:00 +0000\td2\tsecond\n";
    assert_eq!(report.render(), lines);
    assert_eq!(report.render_reduced(), lines);
    assert_eq!(report.render_output(), format!("{}\n>>> Reduced\n{}\n", lines, lines));
}

#[test]
fn replay_takes_the_same_steps() {
    let (run, _) = Correlator::new("src/tools/dep", "upstream/master");
    let (run, steps) = run.replay(&scenario_answers());
    assert_eq!(steps.len(), 10);
    assert_eq!(steps[0], ask_next_line());
    assert_eq!(steps[2], Step::Ask(Query::HostCommit { commit_id: "c0ffee".to_string() }));
    assert_eq!(steps[8], ask_next_line());
    assert_eq!(steps[9], Step::Done);
    assert!(run.into_report().is_some());
}

#[test]
fn same_answers_give_the_same_output() {
    let (first, _) = Correlator::new("src/tools/dep", "upstream/master");
    let (second, _) = Correlator::new("src/tools/dep", "upstream/master");
    let (first, steps_first) = first.replay(&scenario_answers());
    let (second, steps_second) = second.replay(&scenario_answers());
    assert_eq!(steps_first, steps_second);
    let a = first.into_report().unwrap().render_output();
    let b = second.into_report().unwrap().render_output();
    assert_eq!(a.as_bytes(), b.as_bytes());
    assert!(!a.is_empty());
}

#[test]
fn end_of_input_in_the_middle_of_a_record_ends_the_run_in_silence() {
    let run = started();
    let (run, step) = run.advance(text("c0ffee\n"));
    assert_eq!(step, ask_next_line());
    let (run, step) = run.advance(Answer::Declined);
    assert_eq!(step, Step::Done);
    let report = run.into_report().unwrap();
    assert!(report.groups().is_empty());
}

#[test]
fn no_input_gives_an_empty_report() {
    let run = started();
    let (run, step) = run.advance(Answer::Declined);
    assert_eq!(step, Step::Done);
    assert_eq!(run.into_report().unwrap().render_output(), "\n>>> Reduced\n\n");
}

#[test]
fn bump_without_dependent_commits_is_recorded() {
    let run = started();
    let (run, _) = run.advance(text("c0ffee\n"));
    let (run, _) = run.advance(text("Submodule src/tools/dep aaaa111...bbbb222:\n"));
    let (run, _) = run.advance(text("2017-03-01T00:00:00+00:00\tc0ffee\n"));
    let (run, step) = run.advance(text(""));
    assert_eq!(step, ask_next_line());
    let (run, step) = run.advance(Answer::Declined);
    assert_eq!(step, Step::Done);
    let report = run.into_report().unwrap();
    assert_eq!(report.render(), "(None) 2017-03-01T00:00:00+00:00\tc0ffee\n");
    assert_eq!(report.render_reduced(), "");
}

#[test]
fn unreadable_tags_end_the_run() {
    let (run, _) = Correlator::new("src/tools/dep", "upstream/master");
    let (run, step) = run.advance(text("2018|v1\nno bar\n"));
    assert_eq!(step, Step::Abort(CorrelateError::ExternalQuery(Query::Tags)));
    let (run, step) = run.advance(text("c0ffee\n"));
    assert_eq!(step, Step::Abort(CorrelateError::ExternalQuery(Query::Tags)));
    assert_eq!(run.into_report(), None);
    let (run, _) = Correlator::new("src/tools/dep", "upstream/master");
    let (_, step) = run.advance(Answer::Failed);
    assert_eq!(step, Step::Abort(CorrelateError::ExternalQuery(Query::Tags)));
    let (run, _) = Correlator::new("src/tools/dep", "upstream/master");
    let (_, step) = run.advance(Answer::Declined);
    assert_eq!(step, Step::Abort(CorrelateError::ExternalQuery(Query::Tags)));
}

#[test]
fn missing_host_commit_is_a_lookup_error() {
    let query = Query::HostCommit { commit_id: "c0ffee".to_string() };
    let before = || {
        let run = started();
        let (run, _) = run.advance(text("c0ffee\n"));
        let (run, _) = run.advance(text("Submodule src/tools/dep aaaa111...bbbb222:\n"));
        run
    };
    let (_, step) = before().advance(Answer::Declined);
    assert_eq!(step, Step::Abort(CorrelateError::Lookup(query.clone())));
    let (_, step) = before().advance(text("\n"));
    assert_eq!(step, Step::Abort(CorrelateError::Lookup(query.clone())));
    let (_, step) = before().advance(text("no tabs\n"));
    assert_eq!(step, Step::Abort(CorrelateError::ExternalQuery(query.clone())));
    let (_, step) = before().advance(Answer::Failed);
    assert_eq!(step, Step::Abort(CorrelateError::ExternalQuery(query)));
}

#[test]
fn missing_range_endpoint_is_a_lookup_error() {
    let query = Query::DependentRange { range: "aaaa111...bbbb222".to_string() };
    let before = || {
        let run = started();
        let (run, _) = run.advance(text("c0ffee\n"));
        let (run, _) = run.advance(text("Submodule src/tools/dep aaaa111...bbbb222:\n"));
        let (run, _) = run.advance(text("2018-03-01T00:00:00+00:00\tc0ffee\n"));
        run
    };
    let (run, step) = before().advance(Answer::Declined);
    assert_eq!(step, Step::Abort(CorrelateError::Lookup(query.clone())));
    assert_eq!(run.into_report(), None);
    let (_, step) = before().advance(Answer::Failed);
    assert_eq!(step, Step::Abort(CorrelateError::ExternalQuery(query)));
}

#[test]
fn missing_dependent_commit_is_a_lookup_error() {
    let query = Query::DependentCommit { commit_id: "d1".to_string() };
    let before = || {
        let run = started();
        let (run, _) = run.advance(text("c0ffee\n"));
        let (run, _) = run.advance(text("Submodule src/tools/dep aaaa111...bbbb222:\n"));
        let (run, _) = run.advance(text("2018-03-01T00:00:00+00:00\tc0ffee\n"));
        let (run, _) = run.advance(text("d1\n"));
        run
    };
    let (_, step) = before().advance(Answer::Declined);
    assert_eq!(step, Step::Abort(CorrelateError::Lookup(query.clone())));
    let (_, step) = before().advance(text("  "));
    assert_eq!(step, Step::Abort(CorrelateError::Lookup(query.clone())));
    let (_, step) = before().advance(text("garbage"));
    assert_eq!(step, Step::Abort(CorrelateError::ExternalQuery(query.clone())));
    let (_, step) = before().advance(Answer::Failed);
    assert_eq!(step, Step::Abort(CorrelateError::ExternalQuery(query)));
}

#[test]
fn failed_ancestry_query_ends_the_run() {
    let run = started();
    let (run, _) = run.advance(text("c0ffee\n"));
    let (run, _) = run.advance(text("Submodule src/tools/dep aaaa111...bbbb222:\n"));
    let (run, _) = run.advance(text("2018-03-01T00:00:00+00:00\tc0ffee\n"));
    let (run, _) = run.advance(text("d1\n"));
    let (run, _) = run.advance(text("2018\td1\tfirst\n"));
    let (_, step) = run.advance(Answer::Failed);
    assert_eq!(
        step,
        Step::Abort(CorrelateError::ExternalQuery(Query::Ancestry {
            commit_id: "d1".to_string(),
            upstream: "upstream/master".to_string()
        }))
    );
}

#[test]
fn failed_line_read_ends_the_run() {
    let (_, step) = started().advance(Answer::Failed);
    assert_eq!(step, Step::Abort(CorrelateError::ExternalQuery(Query::NextLine)));
    let (run, _) = started().advance(text("c0ffee\n"));
    let (_, step) = run.advance(Answer::Failed);
    assert_eq!(step, Step::Abort(CorrelateError::ExternalQuery(Query::NextLine)));
}

#[test]
fn finished_run_stays_finished() {
    let (run, step) = started().advance(Answer::Declined);
    assert_eq!(step, Step::Done);
    let (run, step) = run.advance(text("c0ffee\n"));
    assert_eq!(step, Step::Done);
    let (run, step) = run.advance(Answer::Failed);
    assert_eq!(step, Step::Done);
    assert!(run.into_report().is_some());
}

#[test]
fn unfinished_run_has_no_report() {
    assert_eq!(started().into_report(), None);
    let (run, _) = Correlator::new("src/tools/dep", "upstream/master");
    assert_eq!(run.into_report(), None);
}

#[test]
fn two_bumps_fall_under_their_releases() {
    let answers = vec![
        text(TAGS),
        text("1111\n"),
        text("Submodule src/tools/dep aa...bb:\n"),
        text("2018-07-01T00:00:00+00:00\t1111\n"),
        text("x1\n"),
        text("2018-06-15\tx1\tone\n"),
        text(""),
        text("2222\n"),
        text("Submodule src/tools/dep bb...cc (commits not present)\n"),
        text("2018-06-01T00:00:00+00:00\t2222\n"),
        text("x2\n"),
        text("2018-05-15\tx2\ttwo\n"),
        Answer::Declined,
        Answer::Declined,
    ];
    let (run, _) = Correlator::new("src/tools/dep", "upstream/master");
    let (run, steps) = run.replay(&answers);
    assert_eq!(steps[13], Step::Done);
    let report = run.into_report().unwrap();
    let full = "(v1) 2018-06-01T00:00:00+00:00\t2222\n  (❌) 2018-05-15\tx2\ttwo\n(v2) 2018-07-01T00:00:00+00:00\t1111\n  (✓) 2018-06-15\tx1\tone\n";
    let reduced = "(v1) 2018-06-01T00:00:00+00:00\t2222\n  (❌) 2018-05-15\tx2\ttwo\n";
    assert_eq!(report.render(), full);
    assert_eq!(report.render_reduced(), reduced);
}

#[test]
fn answers_and_errors_clone_equal() {
    let answer = text("abc");
    assert_eq!(answer.clone(), answer);
    let error = CorrelateError::Lookup(Query::Ancestry {
        commit_id: "d".to_string(),
        upstream: "u".to_string(),
    });
    assert_eq!(error.clone(), error);
    assert_eq!(CorrelateError::Parse(ParseError::EmptyId).clone(), CorrelateError::Parse(ParseError::EmptyId));
}
