use patchbay::manifest::{
    git_context_from, parse_nextest_duration, parse_nextest_json, parse_nextest_line,
    parse_test_output, run_matches, RunKind, RunManifest, TestResult, TestStatus,
};
use patchbay::time::Duration;

#[test]
fn test_parse_test_output() {
    let output = "\
running 3 tests
test foo::bar ... ok
test baz ... FAILED
test qux ... ignored

test result: FAILED. 1 passed; 1 failed; 1 ignored;
";
    let results = parse_test_output(output);
    assert_eq!(results.len(), 3);
    assert_eq!(results[0].name, "foo::bar");
    assert_eq!(results[0].status, TestStatus::Pass);
    assert_eq!(results[1].name, "baz");
    assert_eq!(results[1].status, TestStatus::Fail);
    assert_eq!(results[2].name, "qux");
    assert_eq!(results[2].status, TestStatus::Ignored);
}

#[test]
fn test_parse_nextest_output() {
    let output = "\
    Compiling my-crate v0.1.0
        PASS [   1.234s] my-crate::tests::foo
        FAIL [   0.567s] my-crate::tests::bar
     TIMEOUT [  60.001s] my-crate::tests::baz
      IGNORE            my-crate::tests::qux
";
    let results = parse_test_output(output);
    assert_eq!(results.len(), 4);
    assert_eq!(results[0].name, "my-crate::tests::foo");
    assert_eq!(results[0].status, TestStatus::Pass);
    assert_eq!(results[0].duration, Some(Duration::from_millis(1234)));
    assert_eq!(results[1].name, "my-crate::tests::bar");
    assert_eq!(results[1].status, TestStatus::Fail);
    assert_eq!(results[2].name, "my-crate::tests::baz");
    assert_eq!(results[2].status, TestStatus::Fail); // timeout = fail
    assert_eq!(results[3].name, "my-crate::tests::qux");
    assert_eq!(results[3].status, TestStatus::Ignored);
    assert_eq!(results[3].duration, None);
}

#[test]
fn test_parse_nextest_json() {
    let output = r#"{"type":"suite","event":"started","test_count":3,"nextest":{"crate":"iroh","test_binary":"patchbay","kind":"test"}}
{"type":"test","event":"started","name":"iroh::patchbay$holepunch_simple"}
{"type":"test","event":"ignored","name":"iroh::patchbay$holepunch_cgnat"}
{"type":"test","event":"ok","name":"iroh::patchbay$holepunch_simple","exec_time":4.5}
{"type":"suite","event":"ok","passed":1,"failed":0,"ignored":1,"measured":0,"filtered_out":5,"exec_time":4.5,"nextest":{"crate":"iroh","test_binary":"patchbay","kind":"test"}}
{"type":"suite","event":"started","test_count":1,"nextest":{"crate":"iroh","test_binary":"patchbay","kind":"test"}}
{"type":"test","event":"started","name":"iroh::patchbay$switch_uplink"}
{"type":"test","event":"failed","name":"iroh::patchbay$switch_uplink","exec_time":10.0}
{"type":"suite","event":"failed","passed":0,"failed":1,"ignored":0}"#;
    let results = parse_nextest_json(output);
    assert_eq!(results.len(), 3);
    assert_eq!(results[0].name, "iroh::patchbay$holepunch_cgnat");
    assert_eq!(results[0].status, TestStatus::Ignored);
    assert_eq!(results[0].duration, None);
    assert_eq!(results[1].name, "iroh::patchbay$holepunch_simple");
    assert_eq!(results[1].status, TestStatus::Pass);
    assert_eq!(results[1].duration, Some(Duration::from_millis(4500)));
    assert_eq!(results[2].name, "iroh::patchbay$switch_uplink");
    assert_eq!(results[2].status, TestStatus::Fail);
    assert_eq!(results[2].duration, Some(Duration::from_secs(10)));
}

#[test]
fn test_merge_nextest_results_into_manifest() {
    // Create a manifest with 2 passing tests.
    let mut manifest = RunManifest {
        kind: RunKind::Test,
        project: Some("test-proj".to_string()),
        commit: None,
        branch: None,
        dirty: false,
        pr: None,
        pr_url: None,
        title: None,
        started_at: None,
        ended_at: None,
        runtime: None,
        outcome: Some("pass".to_string()),
        pass: Some(2),
        fail: Some(0),
        total: Some(2),
        tests: vec![
            TestResult {
                name: "crate::test_alpha".to_string(),
                status: TestStatus::Pass,
                duration: Some(Duration::from_millis(100)),
                dir: None,
            },
            TestResult {
                name: "crate::test_beta".to_string(),
                status: TestStatus::Pass,
                duration: Some(Duration::from_millis(200)),
                dir: None,
            },
        ],
        os: None,
        arch: None,
        patchbay_version: None,
    };

    // Create nextest JSONL with 3 tests (2 pass, 1 fail).
    // test_alpha and test_beta overlap; test_gamma is new and failed.
    let nextest_jsonl = r#"{"type":"test","event":"ok","name":"crate::test_alpha","exec_time":0.1}
{"type":"test","event":"ok","name":"crate::test_beta","exec_time":0.2}
{"type":"test","event":"failed","name":"crate::test_gamma","exec_time":0.5}"#;

    let nextest_results = parse_nextest_json(nextest_jsonl);
    assert_eq!(nextest_results.len(), 3);

    // Merge: add tests from nextest that are NOT already in manifest.
    let existing: std::collections::HashSet<String> =
        manifest.tests.iter().map(|t| t.name.clone()).collect();
    let new_tests: Vec<_> = nextest_results
        .into_iter()
        .filter(|r| !existing.contains(r.name.as_str()))
        .collect();
    manifest.tests.extend(new_tests);

    // Manifest should now have 3 tests: the 2 original + the failed one added.
    assert_eq!(manifest.tests.len(), 3);
    assert_eq!(manifest.tests[0].name, "crate::test_alpha");
    assert_eq!(manifest.tests[0].status, TestStatus::Pass);
    assert_eq!(manifest.tests[1].name, "crate::test_beta");
    assert_eq!(manifest.tests[1].status, TestStatus::Pass);
    assert_eq!(manifest.tests[2].name, "crate::test_gamma");
    assert_eq!(manifest.tests[2].status, TestStatus::Fail);
}

#[test]
fn nextest_line_requires_separator_after_word() {
    assert_eq!(
        parse_nextest_line("PASS [ 1.0s] a::b"),
        Some((TestStatus::Pass, "[ 1.0s] a::b".to_string()))
    );
    assert_eq!(parse_nextest_line("PASSED a::b"), None);
    assert_eq!(
        parse_nextest_line("TIMEOUT [ 2s] x"),
        Some((TestStatus::Fail, "[ 2s] x".to_string()))
    );
    assert_eq!(parse_nextest_line("test a ... ok"), None);
}

#[test]
fn nextest_duration_forms() {
    assert_eq!(parse_nextest_duration("[   1.234s] x"), Some(Duration::from_millis(1234)));
    assert_eq!(parse_nextest_duration("[ 60.001s] x"), Some(Duration::from_millis(60001)));
    assert_eq!(parse_nextest_duration("[ 3s] x"), Some(Duration::from_secs(3)));
    assert_eq!(parse_nextest_duration("[ 0.000000001s] x"), Some(Duration::from_nanos(1)));
    assert_eq!(parse_nextest_duration("[ 1.5 ] x"), None);
    assert_eq!(parse_nextest_duration("1.5s] x"), None);
    assert_eq!(parse_nextest_duration("[ abcs] x"), None);
}

#[test]
fn duplicate_names_keep_first() {
    let out = "test a ... ok\ntest a ... FAILED\n    FAIL [ 1.0s] a\n";
    let results = parse_test_output(out);
    assert_eq!(results.len(), 1);
    assert_eq!(results[0].status, TestStatus::Pass);
}

#[test]
fn cargo_line_with_unknown_status_is_skipped() {
    let results = parse_test_output("test a ... bench\ntest b ... ok\r\n");
    assert_eq!(results.len(), 1);
    assert_eq!(results[0].name, "b");
}

#[test]
fn resolve_test_dirs_matches_last_segment() {
    let mut m = RunManifest {
        kind: RunKind::Test,
        project: None,
        commit: None,
        branch: None,
        dirty: false,
        pr: None,
        pr_url: None,
        title: None,
        started_at: None,
        ended_at: None,
        runtime: None,
        outcome: None,
        pass: None,
        fail: None,
        total: None,
        tests: vec![
            TestResult {
                name: "iroh::patchbay holepunch_simple".to_string(),
                status: TestStatus::Pass,
                duration: None,
                dir: None,
            },
            TestResult { name: "other".to_string(), status: TestStatus::Fail, duration: None, dir: None },
        ],
        os: None,
        arch: None,
        patchbay_version: None,
    };
    m.resolve_test_dirs(&["patchbay/holepunch_simple".to_string(), "x/y".to_string()]);
    assert_eq!(m.tests[0].dir.as_deref(), Some("patchbay/holepunch_simple"));
    assert_eq!(m.tests[1].dir, None);
}

#[test]
fn git_context_rules() {
    let g = git_context_from(Some("abc123\n".to_string()), Some("HEAD\n".to_string()), Some(true), None);
    assert_eq!(g.commit.as_deref(), Some("abc123"));
    assert_eq!(g.branch, None);
    assert!(!g.dirty);
    let g = git_context_from(None, Some(" main \n".to_string()), Some(true), Some(false));
    assert_eq!(g.commit, None);
    assert_eq!(g.branch.as_deref(), Some("main"));
    assert!(g.dirty);
}

#[test]
fn run_matches_requires_clean_same_commit() {
    let mut m = RunManifest {
        kind: RunKind::Test,
        project: None,
        commit: Some("deadbeef".to_string()),
        branch: None,
        dirty: false,
        pr: None,
        pr_url: None,
        title: None,
        started_at: None,
        ended_at: None,
        runtime: None,
        outcome: None,
        pass: None,
        fail: None,
        total: None,
        tests: Vec::new(),
        os: None,
        arch: None,
        patchbay_version: None,
    };
    assert!(run_matches(&m, "deadbeef", RunKind::Test));
    assert!(!run_matches(&m, "deadbeef", RunKind::Sim));
    assert!(!run_matches(&m, "deadbee", RunKind::Test));
    m.dirty = true;
    assert!(!run_matches(&m, "deadbeef", RunKind::Test));
}

use patchbay::manifest::test_run_manifest;
use patchbay::time::Timestamp;

#[test]
fn native_run_manifest_counts_results() {
    let git = git_context_from(Some("sha\n".to_string()), Some("main\n".to_string()), Some(true), Some(true));
    let t0 = Timestamp { secs: 10, nanos: 0 };
    let t1 = Timestamp { secs: 12, nanos: 0 };
    let m = test_run_manifest(
        false,
        false,
        "test a ... ok\ntest b ... FAILED",
        "test c ... ignored",
        git,
        t0,
        t1,
        Some(Duration::from_secs(2)),
        "linux".to_string(),
        "x86_64".to_string(),
        None,
    );
    assert_eq!(m.kind, RunKind::Test);
    assert_eq!(m.tests.len(), 3);
    assert_eq!(m.pass, Some(1));
    assert_eq!(m.fail, Some(1));
    assert_eq!(m.total, Some(3));
    assert_eq!(m.outcome.as_deref(), Some("fail"));
    assert_eq!(m.commit.as_deref(), Some("sha"));
    assert_eq!(m.branch.as_deref(), Some("main"));
    assert_eq!(m.os.as_deref(), Some("linux"));
    assert_eq!(m.runtime, Some(Duration::from_secs(2)));

    let git = git_context_from(None, None, None, None);
    let json = r#"{"type":"test","event":"ok","name":"x","exec_time":0.5}"#;
    let m = test_run_manifest(true, true, json, "", git, t0, t1, None, "l".to_string(), "a".to_string(), Some("1.0".to_string()));
    assert_eq!(m.pass, Some(1));
    assert_eq!(m.outcome.as_deref(), Some("pass"));
    assert_eq!(m.patchbay_version.as_deref(), Some("1.0"));
}

#[test]
fn nextest_json_exec_time_in_exponent_form() {
    let output = "{\"type\":\"test\",\"event\":\"ok\",\"name\":\"t\",\"exec_time\":1e-7}";
    let results = parse_nextest_json(output);
    assert_eq!(results.len(), 1);
    assert_eq!(results[0].duration, Some(Duration::from_nanos(100)));
}

#[test]
fn repeated_output_adds_no_results() {
    let o = "test a ... ok\ntest b ... FAILED\r\n    PASS [   1.234s] c::d";
    let once = patchbay::manifest::parse_test_output(o);
    let twice = patchbay::manifest::parse_test_output(&format!("{o}\n{o}"));
    assert_eq!(once.len(), 3);
    assert_eq!(once.len(), twice.len());
    for (a, b) in once.iter().zip(twice.iter()) {
        assert_eq!(a.name, b.name);
        assert_eq!(a.status, b.status);
        assert_eq!(a.duration, b.duration);
        assert_eq!(a.dir, b.dir);
    }
}
