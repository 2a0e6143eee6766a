use patchbay::manifest::RunKind;
use patchbay::time::Timestamp;
use patchbay::upload::manifest_from_env;

#[test]
fn manifest_from_ci_environment() {
    let now = Timestamp { secs: 1_700_000_000, nanos: 5 };
    let m = manifest_from_env(
        "proj",
        None,
        Some("feature-x".to_string()),
        Some("abc123".to_string()),
        Some("42".to_string()),
        Some("Fix things".to_string()),
        now,
    );
    assert_eq!(m.kind, RunKind::Sim);
    assert_eq!(m.project.as_deref(), Some("proj"));
    assert_eq!(m.branch.as_deref(), Some("feature-x"));
    assert_eq!(m.commit.as_deref(), Some("abc123"));
    assert_eq!(m.pr, Some(42));
    assert_eq!(m.title.as_deref(), Some("Fix things"));
    assert_eq!(m.started_at, Some(now));
    assert!(!m.dirty && m.tests.is_empty() && m.outcome.is_none());

    let m = manifest_from_env("p", Some("main".to_string()), Some("x".to_string()), None, Some("abc".to_string()), None, now);
    assert_eq!(m.branch.as_deref(), Some("main"));
    assert_eq!(m.pr, None);
}

use patchbay::upload::{push_url, run_view_url};

#[test]
fn server_endpoints() {
    assert_eq!(push_url("https://pb.example.com//", "proj"), "https://pb.example.com/api/push/proj");
    assert_eq!(push_url("https://pb.example.com", "p"), "https://pb.example.com/api/push/p");
    assert_eq!(run_view_url("https://pb.example.com/", "r1"), "https://pb.example.com/run/r1");
}
