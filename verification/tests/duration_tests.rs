use record_tracker::duration::duration_label;

#[test]
fn exact_duration_label() {
    let label = duration_label("2024-01-01T00:00:00Z", Some("2024-01-01T01:02:03Z"));
    assert_eq!(label, "1hr, 2min, 3sec");
}

#[test]
fn zero_duration_label() {
    let label = duration_label("2024-01-01T00:00:00Z", Some("2024-01-01T00:00:00Z"));
    assert_eq!(label, "0hr, 0min, 0sec");
}

#[test]
fn long_duration_label() {
    let label = duration_label("2024-01-01T00:00:00Z", Some("2024-01-02T01:00:30Z"));
    assert_eq!(label, "25hr, 0min, 30sec");
}

#[test]
fn open_session_label() {
    let label = duration_label("2024-01-01T00:00:00Z", None);
    assert_eq!(label, "PRESENT");
}

#[test]
fn reversed_interval_label() {
    let label = duration_label("2024-01-01T02:00:00Z", Some("2024-01-01T01:00:00Z"));
    assert_eq!(label, "Invalid duration");
}

#[test]
fn malformed_start_label() {
    let label = duration_label("yesterday evening", Some("2024-01-01T01:00:00Z"));
    assert_eq!(label, "Invalid duration");
}

#[test]
fn malformed_finish_label() {
    let label = duration_label("2024-01-01T01:00:00Z", Some("later"));
    assert_eq!(label, "Invalid duration");
}

#[test]
fn malformed_start_open_label() {
    let label = duration_label("not a timestamp", None);
    assert_eq!(label, "Invalid duration");
}

#[test]
fn offsets_are_honoured() {
    // 00:00+01:00 and 23:30Z of the previous day are half an hour apart.
    let label = duration_label("2023-12-31T23:30:00Z", Some("2024-01-01T00:00:00+01:00"));
    assert_eq!(label, "Invalid duration");
    let label = duration_label("2024-01-01T00:00:00+01:00", Some("2023-12-31T23:30:00Z"));
    assert_eq!(label, "0hr, 30min, 0sec");
}

#[test]
fn naive_timestamp_is_rejected() {
    // An offset is required end-to-end; a local unqualified timestamp is
    // treated as malformed.
    let label = duration_label("2024-01-01T00:00:00", Some("2024-01-01T01:00:00"));
    assert_eq!(label, "Invalid duration");
}
