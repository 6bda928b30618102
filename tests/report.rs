use rust_test_parser::{
    group_test_results, organize, suite_name_of, Environment, InputFactory, InputTypes,
    OrganizedResults, TestOutcome, TestRecord, Totals,
};

fn lines(v: &[&str]) -> Vec<String> {
    v.iter().map(|s| s.to_string()).collect()
}

fn shape(r: &OrganizedResults) -> Vec<(String, Vec<(String, TestOutcome)>)> {
    r.suites
        .iter()
        .map(|s| {
            (
                s.name.clone(),
                s.records.iter().map(|t| (t.qualified_name.clone(), t.outcome)).collect(),
            )
        })
        .collect()
}

fn totals(p: usize, f: usize, i: usize) -> Totals {
    Totals { passed: p, failed: f, ignored: i }
}

#[test]
fn empty_input_gives_empty_report() {
    let r = organize(&Vec::new());
    assert!(r.suites.is_empty());
    assert_eq!(r.totals, totals(0, 0, 0));
    let g = group_test_results(&Vec::new());
    assert!(g.suites.is_empty());
    assert_eq!(g.totals.total(), 0);
}

#[test]
fn single_unqualified_line_goes_to_default_suite() {
    let r = organize(&lines(&["test foo ... ok"]));
    assert_eq!(shape(&r), vec![(String::new(), vec![("foo".to_string(), TestOutcome::Passed)])]);
    assert_eq!(r.totals, totals(1, 0, 0));
}

#[test]
fn mixed_input_scenario() {
    let r = organize(&lines(&[
        "test mod_a::t1 ... ok",
        "warning: unused variable",
        "test mod_a::t2 ... FAILED",
        "test mod_b::t3 ... ignored",
    ]));
    assert_eq!(
        shape(&r),
        vec![
            (
                "mod_a".to_string(),
                vec![
                    ("mod_a::t1".to_string(), TestOutcome::Passed),
                    ("mod_a::t2".to_string(), TestOutcome::Failed),
                ]
            ),
            ("mod_b".to_string(), vec![("mod_b::t3".to_string(), TestOutcome::Ignored)]),
        ]
    );
    assert_eq!(r.totals, totals(1, 1, 1));
    assert_eq!(r.suites[0].count(TestOutcome::Passed), 1);
    assert_eq!(r.suites[0].count(TestOutcome::Failed), 1);
    assert_eq!(r.suites[0].count(TestOutcome::Ignored), 0);
    assert_eq!(r.suites[1].count(TestOutcome::Ignored), 1);
}

#[test]
fn name_without_separator_is_kept_in_root_suite() {
    let r = organize(&lines(&["test lonely ... ok", "test a::b ... FAILED"]));
    assert_eq!(r.suites.len(), 2);
    assert_eq!(r.suites[0].name, "");
    assert_eq!(r.suites[0].records[0].qualified_name, "lonely");
    assert_eq!(r.suites[1].name, "a");
    assert_eq!(r.totals, totals(1, 1, 0));
}

#[test]
fn suites_follow_first_appearance_not_names() {
    let r = organize(&lines(&[
        "test zeta::a ... ok",
        "test alpha::b ... ok",
        "test zeta::c ... FAILED",
        "test mid::d ... ignored",
        "test alpha::e ... ok",
    ]));
    let names: Vec<String> = r.suites.iter().map(|s| s.name.clone()).collect();
    assert_eq!(names, vec!["zeta".to_string(), "alpha".to_string(), "mid".to_string()]);
    assert_eq!(r.suites[0].records.len(), 2);
    assert_eq!(r.suites[1].records.len(), 2);
    assert_eq!(r.suites[2].records.len(), 1);
    assert_eq!(r.totals, totals(3, 1, 1));
}

#[test]
fn totals_add_up_to_record_count() {
    let recs = vec![
        TestRecord::new("a::x".to_string(), TestOutcome::Passed),
        TestRecord::new("b::y".to_string(), TestOutcome::Failed),
        TestRecord::new("a::z".to_string(), TestOutcome::Ignored),
        TestRecord::new("c".to_string(), TestOutcome::Passed),
    ];
    let r = group_test_results(&recs);
    assert_eq!(r.totals.total(), recs.len());
    for s in r.suites.iter() {
        let sum = s.count(TestOutcome::Passed)
            + s.count(TestOutcome::Failed)
            + s.count(TestOutcome::Ignored);
        assert_eq!(sum, s.records.len());
    }
}

#[test]
fn aggregating_twice_gives_same_report() {
    let recs = vec![
        TestRecord::new("m::n::t".to_string(), TestOutcome::Passed),
        TestRecord::new("q::r".to_string(), TestOutcome::Failed),
        TestRecord::new("m::n::u".to_string(), TestOutcome::Ignored),
    ];
    let a = group_test_results(&recs);
    let b = group_test_results(&recs);
    assert_eq!(shape(&a), shape(&b));
    assert_eq!(a.totals, b.totals);
}

#[test]
fn duplicate_names_are_both_kept() {
    let r = organize(&lines(&["test s::t ... ok", "test s::t ... ok"]));
    assert_eq!(r.suites.len(), 1);
    assert_eq!(r.suites[0].records.len(), 2);
    assert_eq!(r.totals, totals(2, 0, 0));
}

#[test]
fn suite_name_drops_last_segment_only() {
    assert_eq!(suite_name_of("a::b::c"), "a::b");
    assert_eq!(suite_name_of("a::b"), "a");
    assert_eq!(suite_name_of("plain"), "");
    assert_eq!(suite_name_of(""), "");
    assert_eq!(suite_name_of("tests::nested::deep::case_1"), "tests::nested::deep");
    assert_eq!(suite_name_of("a:::b"), "a");
    assert_eq!(suite_name_of("a:b"), "");
}

#[test]
fn factory_picks_file_when_asked() {
    let env = Environment::new(true, "out.txt".to_string());
    match InputFactory::get(&env) {
        InputTypes::File(f) => assert_eq!(f.file_name, "out.txt"),
        InputTypes::StdIn(_) => panic!("expected a file reader"),
    }
}

#[test]
fn factory_defaults_to_stdin() {
    let env = Environment::new(false, "out.txt".to_string());
    assert!(matches!(InputFactory::get(&env), InputTypes::StdIn(_)));
}
