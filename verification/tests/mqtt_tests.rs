use gcamview::mqtt::{EventFilter, FrigateEvent, Verdict, SWITCH_GAP_NANOS};

fn ev(t: &str, cam: &str, label: &str) -> FrigateEvent {
    FrigateEvent { event_type: t.to_string(), camera: cam.to_string(), label: label.to_string() }
}

const MS: u64 = 1_000_000;

#[test]
fn only_new_person_events_with_camera_pass() {
    let mut f = EventFilter::new();
    assert_eq!(f.decide(&ev("update", "a", "person"), 0), Verdict::NotNew);
    assert_eq!(f.decide(&ev("end", "a", "person"), 0), Verdict::NotNew);
    assert_eq!(f.decide(&ev("", "a", "person"), 0), Verdict::NotNew);
    assert_eq!(f.decide(&ev("new", "", "person"), 0), Verdict::MissingCamera);
    assert_eq!(f.decide(&ev("new", "a", "car"), 0), Verdict::NotPerson);
    assert_eq!(f.decide(&ev("new", "a", "Person"), 0), Verdict::NotPerson);
    assert!(f.last_camera.is_none());
    assert_eq!(f.decide(&ev("new", "a", "person"), 0), Verdict::Forward);
    assert_eq!(f.last_camera.as_deref(), Some("a"));
}

#[test]
fn repeat_within_gap_is_throttled() {
    let mut f = EventFilter::new();
    let t0 = 10_000 * MS;
    assert_eq!(f.decide(&ev("new", "a", "person"), t0), Verdict::Forward);
    assert_eq!(f.decide(&ev("new", "a", "person"), t0 + 599 * MS), Verdict::Throttled);
    assert_eq!(f.last_switch, t0);
    assert_eq!(f.decide(&ev("new", "a", "person"), t0 + SWITCH_GAP_NANOS - 1), Verdict::Throttled);
}

#[test]
fn repeat_after_gap_is_forwarded() {
    let mut f = EventFilter::new();
    assert_eq!(f.decide(&ev("new", "a", "person"), 0), Verdict::Forward);
    assert_eq!(f.decide(&ev("new", "a", "person"), 600 * MS), Verdict::Forward);
    assert_eq!(f.last_switch, 600 * MS);
}

#[test]
fn other_camera_is_forwarded_at_once() {
    let mut f = EventFilter::new();
    assert_eq!(f.decide(&ev("new", "a", "person"), 5 * MS), Verdict::Forward);
    assert_eq!(f.decide(&ev("new", "b", "person"), 5 * MS), Verdict::Forward);
    assert_eq!(f.decide(&ev("new", "a", "person"), 6 * MS), Verdict::Forward);
    assert_eq!(f.last_camera.as_deref(), Some("a"));
}

#[test]
fn rejected_events_keep_state() {
    let mut f = EventFilter::new();
    assert_eq!(f.decide(&ev("new", "a", "person"), 100), Verdict::Forward);
    assert_eq!(f.decide(&ev("new", "b", "dog"), 200), Verdict::NotPerson);
    assert_eq!(f.last_camera.as_deref(), Some("a"));
    assert_eq!(f.last_switch, 100);
    assert_eq!(f.decide(&ev("new", "a", "person"), 300), Verdict::Throttled);
}

#[test]
fn clock_going_back_counts_as_no_time() {
    let mut f = EventFilter::new();
    assert_eq!(f.decide(&ev("new", "a", "person"), 10_000 * MS), Verdict::Forward);
    assert_eq!(f.decide(&ev("new", "a", "person"), 0), Verdict::Throttled);
}
