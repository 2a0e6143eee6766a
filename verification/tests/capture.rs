use patchbay::capture::{timeout_message, CaptureSlot, CaptureStore, WaitStep};
use patchbay::time::Duration;

#[test]
fn get_after_record_gives_the_latest_value() {
    let mut s = CaptureStore::new();
    assert_eq!(s.get("a.x"), None);
    s.record("a.x", "1".to_string());
    s.record("b.y", "other".to_string());
    s.record("a.x", "2".to_string());
    assert_eq!(s.get("a.x"), Some("2".to_string()));
    assert_eq!(s.get("b.y"), Some("other".to_string()));
    assert_eq!(s.get("c.z"), None);
}

#[test]
fn wait_steps() {
    let mut s = CaptureStore::new();
    assert!(matches!(s.wait("a.x", Duration::from_millis(10)), WaitStep::Pending));
    assert!(matches!(s.wait("a.x", Duration::from_millis(0)), WaitStep::Expired));
    s.record("a.x", "v".to_string());
    match s.wait("a.x", Duration::from_millis(0)) {
        WaitStep::Ready(v) => assert_eq!(v, "v"),
        _ => panic!("expected a value"),
    }
}

#[test]
fn slot_value_is_latest() {
    let slot = CaptureSlot { history: vec!["a".to_string(), "b".to_string()] };
    assert_eq!(slot.value(), Some("b"));
    let empty = CaptureSlot { history: Vec::new() };
    assert_eq!(empty.value(), None);
}

#[test]
fn timeout_message_names_the_key() {
    assert_eq!(timeout_message("step1.out"), "timeout waiting for capture 'step1.out'");
}
