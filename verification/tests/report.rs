use submodule_bumps::commit::{
    parse_dependent_commit, parse_host_details, DependentCommit, HostCommitDetails,
};
use submodule_bumps::report::{
    ancestor_char, entry_has_orphan, group_has_orphan, Report, ReportEntry,
};

fn host(id: &str, at: &str) -> HostCommitDetails {
    HostCommitDetails {
        commit_id: id.to_string(),
        committed_at: at.to_string(),
        subject: String::new(),
    }
}

fn child(id: &str, at: &str, subject: &str, is_ancestor: bool) -> DependentCommit {
    DependentCommit {
        commit_id: id.to_string(),
        committed_at: at.to_string(),
        subject: subject.to_string(),
        is_ancestor_of_upstream: is_ancestor,
    }
}

fn entry(release: &str, id: &str, children: Vec<DependentCommit>) -> ReportEntry {
    ReportEntry { release: release.to_string(), host_commit: host(id, "2019-01-01"), children }
}

fn labels(report: &Report) -> Vec<String> {
    report.groups().iter().map(|g| g.label.clone()).collect()
}

#[test]
fn marks() {
    assert_eq!(ancestor_char(true), '✓');
    assert_eq!(ancestor_char(false), '❌');
}

#[test]
fn new_report_is_empty() {
    let report = Report::new();
    assert!(report.groups().is_empty());
    assert_eq!(report.render(), "");
    assert_eq!(report.render_reduced(), "");
    assert_eq!(report.render_output(), "\n>>> Reduced\n\n");
}

#[test]
fn entries_are_grouped_by_release_in_ascending_order() {
    let mut report = Report::new();
    report.record(entry("1.31.0", "h1", vec![]));
    report.record(entry("1.30.0", "h2", vec![]));
    report.record(entry("None", "h3", vec![]));
    report.record(entry("1.31.0", "h4", vec![]));
    report.record(entry("1.30.0", "h5", vec![]));
    assert_eq!(labels(&report), vec!["1.30.0", "1.31.0", "None"]);
    let groups = report.groups();
    let ids = |i: usize| -> Vec<String> {
        groups[i].entries.iter().map(|e| e.host_commit.commit_id.clone()).collect()
    };
    assert_eq!(ids(0), vec!["h2", "h5"]);
    assert_eq!(ids(1), vec!["h1", "h4"]);
    assert_eq!(ids(2), vec!["h3"]);
    for group in groups.iter() {
        for e in group.entries.iter() {
            assert_eq!(e.release, group.label);
        }
    }
}

#[test]
fn full_view_shows_every_entry_and_child() {
    let mut report = Report::new();
    report.record(entry(
        "1.31.0",
        "c0ffee",
        vec![
            child("d1", "2018-12-01 10:00:00 +0000", "first", true),
            child("d2", "2018-12-02 10:00:00 +0000", "second", false),
        ],
    ));
    report.record(entry("1.30.0", "beef", vec![child("d0", "2018-11-01", "", true)]));
    let expected = "(1.30.0) 2019-01-01\tbeef\n  (✓) 2018-11-01\td0\n(1.31.0) 2019-01-01\tc0ffee\n  (✓) 2018-12-01 10:00:00 +0000\td1\tfirst\n  (❌) 2018-12-02 10:00:00 +0000\td2\tsecond\n";
    assert_eq!(report.render(), expected);
}

#[test]
fn release_with_only_ancestors_is_absent_from_reduced_view() {
    let mut report = Report::new();
    report.record(entry("1.30.0", "h1", vec![child("d1", "t", "s", true), child("d2", "t", "s", true)]));
    report.record(entry("1.31.0", "h2", vec![]));
    let reduced = report.reduced();
    assert!(reduced.groups().is_empty());
    assert_eq!(report.render_reduced(), "");
    assert_eq!(labels(&report), vec!["1.30.0", "1.31.0"]);
}

#[test]
fn release_with_an_orphan_is_in_reduced_view_with_all_its_entries() {
    let mut report = Report::new();
    report.record(entry("1.30.0", "h1", vec![child("d1", "t1", "s1", true)]));
    report.record(entry("1.31.0", "h2", vec![child("d2", "t2", "s2", true)]));
    report.record(entry("1.31.0", "h3", vec![child("d3", "t3", "s3", true), child("d4", "t4", "s4", false)]));
    report.record(entry("1.31.0", "h4", vec![]));
    report.record(entry("1.32.0", "h5", vec![child("d5", "t5", "s5", true)]));
    let reduced = report.reduced();
    assert_eq!(labels(&reduced), vec!["1.31.0"]);
    assert_eq!(reduced.groups()[0], report.groups()[1]);
    assert_eq!(reduced.groups()[0].entries.len(), 3);
    let expected = "(1.31.0) 2019-01-01\th2\n  (✓) t2\td2\ts2\n(1.31.0) 2019-01-01\th3\n  (✓) t3\td3\ts3\n  (❌) t4\td4\ts4\n(1.31.0) 2019-01-01\th4\n";
    assert_eq!(report.render_reduced(), expected);
    assert_eq!(reduced.render(), expected);
}

#[test]
fn output_is_full_view_then_reduced_view() {
    let mut report = Report::new();
    report.record(entry("1.30.0", "h1", vec![child("d1", "t1", "s1", true)]));
    report.record(entry("1.31.0", "h2", vec![child("d2", "t2", "s2", false)]));
    let expected = "(1.30.0) 2019-01-01\th1\n  (✓) t1\td1\ts1\n(1.31.0) 2019-01-01\th2\n  (❌) t2\td2\ts2\n\n>>> Reduced\n(1.31.0) 2019-01-01\th2\n  (❌) t2\td2\ts2\n\n";
    assert_eq!(report.render_output(), expected);
    assert_eq!(report.render_output(), format!("{}\n>>> Reduced\n{}\n", report.render(), report.render_reduced()));
}

#[test]
fn orphans_are_found() {
    let clean = entry("r", "h", vec![child("d1", "t", "s", true)]);
    let dirty = entry("r", "h", vec![child("d1", "t", "s", true), child("d2", "t", "s", false)]);
    let empty = entry("r", "h", vec![]);
    assert!(!entry_has_orphan(&clean));
    assert!(entry_has_orphan(&dirty));
    assert!(!entry_has_orphan(&empty));
    let mut report = Report::new();
    report.record(clean);
    report.record(empty);
    assert!(!group_has_orphan(&report.groups()[0]));
    report.record(dirty);
    assert!(group_has_orphan(&report.groups()[0]));
}

#[test]
fn host_details_are_read_from_tabbed_line() {
    let details = parse_host_details("2019-01-01T10:00:00+01:00\tc0ffee\n").unwrap();
    assert_eq!(details, host("c0ffee", "2019-01-01T10:00:00+01:00"));
    let with_subject = parse_host_details("2019\tc0ffee\tBump the tool\n").unwrap();
    assert_eq!(with_subject.subject, "Bump the tool");
    assert_eq!(parse_host_details(""), None);
    assert_eq!(parse_host_details("\n"), None);
    assert_eq!(parse_host_details("no tabs here"), None);
}

#[test]
fn dependent_commit_is_read_from_tabbed_line() {
    let commit =
        parse_dependent_commit("2018-12-01 10:00:00 +0000\td1\tFix\ta tab\n", false).unwrap();
    assert_eq!(commit, child("d1", "2018-12-01 10:00:00 +0000", "Fix\ta tab", false));
    let bare = parse_dependent_commit("2018\td1", true).unwrap();
    assert_eq!(bare, child("d1", "2018", "", true));
    assert_eq!(parse_dependent_commit("   ", true), None);
}

#[test]
fn report_shows_details_as_they_were_given() {
    let response = "2018-12-01 10:00:00 +0000\td1\tFix the thing\n";
    let commit = parse_dependent_commit(response, true).unwrap();
    let mut report = Report::new();
    report.record(ReportEntry {
        release: "r".to_string(),
        host_commit: parse_host_details("2019\th\n").unwrap(),
        children: vec![commit],
    });
    assert_eq!(report.render(), format!("(r) 2019\th\n  (✓) {}\n", response.trim()));
}

#[test]
fn clones_are_equal() {
    let e = entry("r", "h", vec![child("d1", "t", "s", false)]);
    assert_eq!(e.clone(), e);
    assert_eq!(e.host_commit.clone(), e.host_commit);
    assert_eq!(e.children[0].clone(), e.children[0]);
    let mut report = Report::new();
    report.record(e);
    assert_eq!(report.groups()[0].clone(), report.groups()[0]);
}
