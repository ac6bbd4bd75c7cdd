use scylla::models::{parse_status, status_str, BookStatus};

#[test]
fn test_status_cycle_wraps() {
    assert_eq!(BookStatus::Reading.next(), BookStatus::Paused);
    assert_eq!(BookStatus::Paused.next(), BookStatus::Dropped);
    assert_eq!(BookStatus::Dropped.next(), BookStatus::Completed);
    assert_eq!(BookStatus::Completed.next(), BookStatus::Reading);
}

#[test]
fn test_status_display() {
    assert_eq!(BookStatus::Reading.to_string(), "Reading");
    assert_eq!(BookStatus::Paused.to_string(), "Paused");
    assert_eq!(BookStatus::Dropped.to_string(), "Dropped");
    assert_eq!(BookStatus::Completed.to_string(), "Completed");
}

#[test]
fn test_status_roundtrip() {
    for status in &[
        BookStatus::Reading,
        BookStatus::Paused,
        BookStatus::Dropped,
        BookStatus::Completed,
    ] {
        assert_eq!(&parse_status(status_str(status)), status);
    }
}

#[test]
fn db_test_parse_status_unknown_defaults_to_reading() {
    assert_eq!(parse_status("garbage"), BookStatus::Reading);
    assert_eq!(parse_status(""), BookStatus::Reading);
}

#[test]
fn test_status_str_roundtrip() {
    for status in &[
        BookStatus::Reading,
        BookStatus::Paused,
        BookStatus::Dropped,
        BookStatus::Completed,
    ] {
        let s = status_str(status);
        assert_eq!(&parse_status(s), status);
    }
}

#[test]
fn status_cycle_returns_after_four_steps() {
    for status in &[
        BookStatus::Reading,
        BookStatus::Paused,
        BookStatus::Dropped,
        BookStatus::Completed,
    ] {
        assert_eq!(status.next().next().next().next(), *status);
        assert_ne!(status.next(), *status);
    }
}
