use rust_test_parser::{classify_line, find_test_lines, TestOutcome};

fn classified(line: &str) -> Option<(String, TestOutcome)> {
    classify_line(line).map(|r| (r.qualified_name.clone(), r.outcome))
}

#[test]
fn ok_line_is_passed_with_verbatim_name() {
    assert_eq!(
        classified("test mod_a::t1 ... ok"),
        Some(("mod_a::t1".to_string(), TestOutcome::Passed))
    );
}

#[test]
fn failed_line_is_failed() {
    assert_eq!(
        classified("test mod_a::t2 ... FAILED"),
        Some(("mod_a::t2".to_string(), TestOutcome::Failed))
    );
}

#[test]
fn ignored_line_is_ignored() {
    assert_eq!(
        classified("test mod_b::t3 ... ignored"),
        Some(("mod_b::t3".to_string(), TestOutcome::Ignored))
    );
}

#[test]
fn surrounding_whitespace_is_not_significant() {
    assert_eq!(
        classified("  \ttest a::b::c ... ok \r"),
        Some(("a::b::c".to_string(), TestOutcome::Passed))
    );
}

#[test]
fn noise_lines_are_dropped() {
    assert_eq!(classified(""), None);
    assert_eq!(classified("   "), None);
    assert_eq!(classified("warning: unused variable"), None);
    assert_eq!(classified("running 3 tests"), None);
    assert_eq!(classified("test result: ok. 3 passed; 0 failed; 0 ignored"), None);
    assert_eq!(classified("   Compiling foo v0.1.0"), None);
}

#[test]
fn unknown_status_token_is_dropped() {
    assert_eq!(classified("test a::b ... passed"), None);
    assert_eq!(classified("test a::b ... Ok"), None);
    assert_eq!(classified("test a::b ... failed"), None);
    assert_eq!(classified("test a::b ... ignored, slow"), None);
}

#[test]
fn malformed_result_lines_are_dropped() {
    assert_eq!(classified("test  ... ok"), None);
    assert_eq!(classified("test ... ok"), None);
    assert_eq!(classified("test a b ... ok"), None);
    assert_eq!(classified("tests a ... ok"), None);
    assert_eq!(classified("test a .. ok"), None);
}

#[test]
fn non_ascii_names_are_kept() {
    assert_eq!(
        classified("test modé::tést ... ok"),
        Some(("modé::tést".to_string(), TestOutcome::Passed))
    );
}

#[test]
fn find_test_lines_keeps_order_and_duplicates() {
    let lines: Vec<String> = vec![
        "test x::a ... ok".to_string(),
        "noise".to_string(),
        "test x::a ... FAILED".to_string(),
        "".to_string(),
        "test y ... ignored".to_string(),
    ];
    let recs = find_test_lines(&lines);
    let got: Vec<(String, TestOutcome)> =
        recs.iter().map(|r| (r.qualified_name.clone(), r.outcome)).collect();
    assert_eq!(
        got,
        vec![
            ("x::a".to_string(), TestOutcome::Passed),
            ("x::a".to_string(), TestOutcome::Failed),
            ("y".to_string(), TestOutcome::Ignored),
        ]
    );
}
