use submodule_bumps::bump::{
    extract_bumps, holds_separator, parse_range, parse_record, parse_status_line, range_expression,
    status_prefix_chars, strip_annotation, ParseError, SubmoduleBump,
};

fn chars(s: &str) -> Vec<char> {
    s.chars().collect()
}

fn pair(a: &str, b: &str) -> (String, String) {
    (a.to_string(), b.to_string())
}

#[test]
fn status_line_with_colon_gives_both_ids() {
    let ids = parse_status_line("Submodule src/tools/rls aaaa111...bbbb222:", "src/tools/rls");
    assert_eq!(ids, Ok(pair("aaaa111", "bbbb222")));
}

#[test]
fn status_line_of_new_submodule_gives_both_ids() {
    let ids = parse_status_line(
        "Submodule src/tools/rls 0000000...bbbb222 (new submodule)",
        "src/tools/rls",
    );
    assert_eq!(ids, Ok(pair("0000000", "bbbb222")));
}

#[test]
fn status_line_of_absent_commits_gives_both_ids() {
    let ids = parse_status_line(
        "Submodule src/tools/rls aaaa111...bbbb222 (commits not present)",
        "src/tools/rls",
    );
    assert_eq!(ids, Ok(pair("aaaa111", "bbbb222")));
}

#[test]
fn status_line_without_annotation_is_used_as_it_is() {
    let ids = parse_status_line("Submodule src/tools/rls aaaa111...bbbb222", "src/tools/rls");
    assert_eq!(ids, Ok(pair("aaaa111", "bbbb222")));
}

#[test]
fn status_line_is_trimmed_before_it_is_read() {
    let ids = parse_status_line("  Submodule src/tools/rls aaaa111...bbbb222:\r\n", "src/tools/rls");
    assert_eq!(ids, Ok(pair("aaaa111", "bbbb222")));
}

#[test]
fn dot_run_splits_exactly() {
    assert_eq!(parse_range(&chars("aaaa1111...bbbb2222")), Ok(pair("aaaa1111", "bbbb2222")));
}

#[test]
fn range_is_cut_at_first_and_last_dot() {
    assert_eq!(parse_range(&chars("aaaa....bbbb")), Ok(pair("aaaa", "bbbb")));
    assert_eq!(parse_range(&chars("aa.bb...cc")), Ok(pair("aa", "cc")));
    assert_eq!(parse_range(&chars(" aa ... bb ")), Ok(pair("aa", "bb")));
}

#[test]
fn double_dot_is_no_separator() {
    assert_eq!(
        parse_status_line("Submodule src/tools/dep aaaa111..bbbb222:", "src/tools/dep"),
        Err(ParseError::MissingSeparator)
    );
    assert_eq!(parse_range(&chars("aaaa111..bbbb222")), Err(ParseError::MissingSeparator));
    assert_eq!(parse_range(&chars("aaaa111bbbb222")), Err(ParseError::MissingSeparator));
    assert_eq!(parse_range(&chars("a.b.c..d")), Err(ParseError::MissingSeparator));
    assert_eq!(parse_range(&chars("")), Err(ParseError::MissingSeparator));
}

#[test]
fn wrong_prefix_is_refused() {
    assert_eq!(
        parse_status_line("Submodule src/tools/other aaaa111...bbbb222:", "src/tools/rls"),
        Err(ParseError::MissingPrefix)
    );
    assert_eq!(parse_status_line("", "src/tools/rls"), Err(ParseError::MissingPrefix));
    assert_eq!(
        parse_status_line("Submodule src/tools/rls", "src/tools/rls"),
        Err(ParseError::MissingPrefix)
    );
}

#[test]
fn empty_side_is_refused() {
    assert_eq!(parse_range(&chars("...bbbb222")), Err(ParseError::EmptyId));
    assert_eq!(parse_range(&chars("aaaa111...")), Err(ParseError::EmptyId));
    assert_eq!(parse_range(&chars("  ...bbbb222")), Err(ParseError::EmptyId));
    assert_eq!(parse_range(&chars("...")), Err(ParseError::EmptyId));
    assert_eq!(
        parse_status_line("Submodule src/tools/rls ...bbbb222:", "src/tools/rls"),
        Err(ParseError::EmptyId)
    );
}

#[test]
fn separator_is_three_dots_in_a_row() {
    assert!(holds_separator(&chars("a...b")));
    assert!(holds_separator(&chars("...")));
    assert!(holds_separator(&chars("a.b....")));
    assert!(!holds_separator(&chars("a..b.c")));
    assert!(!holds_separator(&chars("..")));
    assert!(!holds_separator(&chars("")));
}

#[test]
fn annotation_comes_off() {
    assert_eq!(strip_annotation(&chars("a...b:")), &chars("a...b")[..]);
    assert_eq!(strip_annotation(&chars("a...b (new submodule)")), &chars("a...b")[..]);
    assert_eq!(strip_annotation(&chars("a...b (commits not present)")), &chars("a...b")[..]);
    assert_eq!(strip_annotation(&chars("a...b")), &chars("a...b")[..]);
    assert_eq!(strip_annotation(&chars("")), &chars("")[..]);
    assert_eq!(strip_annotation(&chars("a...b (new submodule):")), &chars("a...b (new submodule)")[..]);
}

#[test]
fn prefix_names_the_path() {
    assert_eq!(status_prefix_chars("src/tools/dep"), chars("Submodule src/tools/dep "));
}

#[test]
fn record_holds_commit_and_ids() {
    let bump = parse_record(
        "c0ffee\n",
        "Submodule src/tools/dep aaaa111...bbbb222:\n",
        "src/tools/dep",
    );
    assert_eq!(
        bump,
        Ok(SubmoduleBump {
            host_commit_id: "c0ffee".to_string(),
            start_id: "aaaa111".to_string(),
            end_id: "bbbb222".to_string(),
        })
    );
}

#[test]
fn malformed_record_is_a_parse_error() {
    let bump = parse_record(
        "c0ffee\n",
        "Submodule src/tools/dep aaaa111..bbbb222:\n",
        "src/tools/dep",
    );
    assert_eq!(bump, Err(ParseError::MissingSeparator));
}

#[test]
fn records_are_read_two_lines_at_a_time() {
    let lines = vec![
        "1111\n".to_string(),
        "Submodule src/tools/rls aa...bb:\n".to_string(),
        "2222\n".to_string(),
        "Submodule src/tools/rls bb...cc (commits not present)\n".to_string(),
        "3333\n".to_string(),
    ];
    let bumps = extract_bumps(&lines, "src/tools/rls").unwrap();
    assert_eq!(bumps.len(), 2);
    assert_eq!(bumps[0].host_commit_id, "1111");
    assert_eq!(bumps[0].start_id, "aa");
    assert_eq!(bumps[0].end_id, "bb");
    assert_eq!(bumps[1].host_commit_id, "2222");
    assert_eq!(bumps[1].start_id, "bb");
    assert_eq!(bumps[1].end_id, "cc");
}

#[test]
fn no_lines_no_bumps() {
    assert_eq!(extract_bumps(&Vec::new(), "src/tools/rls"), Ok(Vec::new()));
    assert_eq!(extract_bumps(&vec!["1111\n".to_string()], "src/tools/rls"), Ok(Vec::new()));
}

#[test]
fn first_bad_record_ends_the_reading() {
    let lines = vec![
        "1111\n".to_string(),
        "Submodule src/tools/rls aa...bb:\n".to_string(),
        "2222\n".to_string(),
        "something else\n".to_string(),
        "3333\n".to_string(),
        "Submodule src/tools/rls aa..bb:\n".to_string(),
    ];
    assert_eq!(extract_bumps(&lines, "src/tools/rls"), Err(ParseError::MissingPrefix));
}

#[test]
fn range_is_written_with_three_dots() {
    let bump = SubmoduleBump {
        host_commit_id: "c0ffee".to_string(),
        start_id: "aaaa111".to_string(),
        end_id: "bbbb222".to_string(),
    };
    assert_eq!(range_expression(&bump), "aaaa111...bbbb222");
    assert_eq!(parse_range(&chars(&range_expression(&bump))), Ok(pair("aaaa111", "bbbb222")));
}

#[test]
fn bump_clone_is_equal() {
    let bump = SubmoduleBump {
        host_commit_id: "c0ffee".to_string(),
        start_id: "aaaa111".to_string(),
        end_id: "bbbb222".to_string(),
    };
    assert_eq!(bump.clone(), bump);
}
