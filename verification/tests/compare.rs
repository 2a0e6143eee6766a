use patchbay::compare::{
    compare_results, delta_label, merged_names, parse_test_output, sanitize_ref, score_line,
    side_status, status_label, TestResult, TestStatus,
};

fn r(name: &str, status: TestStatus, ms: Option<u64>) -> TestResult {
    TestResult { name: name.to_string(), status, duration_ms: ms }
}

#[test]
fn compare_counts_fixes_regressions_and_time() {
    let left = vec![
        r("a", TestStatus::Fail, Some(100)),
        r("b", TestStatus::Pass, Some(100)),
        r("c", TestStatus::Pass, None),
    ];
    let right = vec![
        r("a", TestStatus::Pass, Some(50)),
        r("b", TestStatus::Fail, Some(50)),
        r("d", TestStatus::Pass, None),
    ];
    let s = compare_results("v1", "v2", &left, &right);
    assert_eq!(s.left.pass, 2);
    assert_eq!(s.left.fail, 1);
    assert_eq!(s.left.total, 3);
    assert_eq!(s.left.time.as_millis(), 200);
    assert_eq!(s.right.pass, 2);
    assert_eq!(s.right.fail, 1);
    assert_eq!(s.right.time.as_millis(), 100);
    assert_eq!(s.fixes, 1);
    assert_eq!(s.regressions, 1);
    // 3 per fix, -5 per regression, +1 for getting faster by more than 2%.
    assert_eq!(s.score, -1);
}

#[test]
fn comparing_a_run_with_itself_is_neutral() {
    let v = vec![r("a", TestStatus::Pass, Some(10)), r("b", TestStatus::Fail, Some(10))];
    let s = compare_results("x", "x", &v, &v);
    assert_eq!(s.fixes, 0);
    assert_eq!(s.regressions, 0);
    assert_eq!(s.score, 0);
}

#[test]
fn slower_run_loses_a_point() {
    let left = vec![r("a", TestStatus::Pass, Some(100))];
    let right = vec![r("a", TestStatus::Pass, Some(106))];
    assert_eq!(compare_results("l", "r", &left, &right).score, -1);
    let right = vec![r("a", TestStatus::Pass, Some(105))];
    assert_eq!(compare_results("l", "r", &left, &right).score, 0);
}

#[test]
fn merged_names_sorted_unique() {
    let left = vec![r("b", TestStatus::Pass, None), r("a", TestStatus::Pass, None)];
    let right = vec![r("c", TestStatus::Pass, None), r("a", TestStatus::Fail, None)];
    assert_eq!(merged_names(&left, &right), vec!["a", "b", "c"]);
}

#[test]
fn cargo_output_is_parsed() {
    let out = "running 2 tests\ntest x::y ... ok\ntest z ... FAILED\nnoise\n";
    let v = parse_test_output(out);
    assert_eq!(v.len(), 2);
    assert_eq!(v[0].name, "x::y");
    assert_eq!(v[0].status, TestStatus::Pass);
    assert_eq!(v[1].status, TestStatus::Fail);
    assert_eq!(v[1].duration_ms, None);
}

#[test]
fn refs_are_sanitized() {
    assert_eq!(sanitize_ref("feature/x\\y"), "feature_x_y");
}

#[test]
fn table_labels() {
    assert_eq!(status_label(Some(TestStatus::Pass)), "PASS");
    assert_eq!(status_label(Some(TestStatus::Ignored)), "SKIP");
    assert_eq!(status_label(None), "-");
    assert_eq!(delta_label(Some(TestStatus::Fail), Some(TestStatus::Pass)), "fixed");
    assert_eq!(delta_label(Some(TestStatus::Pass), Some(TestStatus::Fail)), "REGRESS");
    assert_eq!(delta_label(None, Some(TestStatus::Pass)), "new");
    assert_eq!(delta_label(Some(TestStatus::Pass), None), "removed");
    assert_eq!(delta_label(Some(TestStatus::Pass), Some(TestStatus::Pass)), "");
    let v = vec![r("a", TestStatus::Pass, None), r("a", TestStatus::Fail, None)];
    assert_eq!(side_status(&v, "a"), Some(TestStatus::Fail));
    assert_eq!(side_status(&v, "b"), None);
}

#[test]
fn score_line_has_a_sign() {
    assert_eq!(score_line(3, 1, 0), "Score: +3 (1 fixes, 0 regressions)");
    assert_eq!(score_line(0, 0, 0), "Score: +0 (0 fixes, 0 regressions)");
    assert_eq!(score_line(-5, 0, 1), "Score: -5 (0 fixes, 1 regressions)");
}
