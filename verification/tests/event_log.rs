use agterm::debug::event_log::{EventLog, EventType, LogEntry};

#[test]
fn test_event_log_basic() {
    let mut log = EventLog::new(10);

    log.log(EventType::KeyPress("A".to_string()), "Key A pressed".to_string());
    log.log(EventType::PtyOutput(100), "100 bytes received".to_string());

    assert_eq!(log.len(), 2);
    assert!(!log.is_empty());
}

#[test]
fn test_event_log_capacity() {
    let mut log = EventLog::new(5);

    // Add more than capacity
    for i in 0..10 {
        log.log(
            EventType::Custom(format!("event{}", i)),
            format!("Event {}", i),
        );
    }

    // Should only keep the last 5
    assert_eq!(log.len(), 5);

    // First entry should be event5 (event0-4 were dropped)
    let entries = log.entries();
    if let EventType::Custom(ref s) = entries[0].event_type {
        assert_eq!(s, "event5");
    } else {
        panic!("Expected Custom event");
    }
}

#[test]
fn test_event_log_clear() {
    let mut log = EventLog::new(10);

    log.log(EventType::Bell, "Bell rang".to_string());
    log.log(EventType::TabCreated, "Tab created".to_string());

    assert_eq!(log.len(), 2);

    log.clear();

    assert_eq!(log.len(), 0);
    assert!(log.is_empty());
}

#[test]
fn test_event_log_filter() {
    let mut log = EventLog::new(100);

    // Set filter to only log key presses and PTY input
    log.set_filter(Some(vec![
        EventType::KeyPress(String::new()),
        EventType::PtyInput(0),
    ]));

    // Try to log various events
    log.log(EventType::KeyPress("A".to_string()), "Key A".to_string());
    log.log(EventType::PtyInput(10), "Input 10 bytes".to_string());
    log.log(EventType::PtyOutput(100), "Output 100 bytes".to_string()); // Should be filtered out
    log.log(EventType::Bell, "Bell".to_string()); // Should be filtered out

    // Only 2 events should have been logged
    assert_eq!(log.len(), 2);
}

#[test]
fn test_event_log_filtered_entries() {
    let mut log = EventLog::new(100);

    // Add various events without filter
    log.log(EventType::KeyPress("A".to_string()), "Key A".to_string());
    log.log(EventType::PtyOutput(100), "Output".to_string());
    log.log(EventType::KeyPress("B".to_string()), "Key B".to_string());
    log.log(EventType::Bell, "Bell".to_string());

    assert_eq!(log.len(), 4);

    // Set filter
    log.set_filter(Some(vec![EventType::KeyPress(String::new())]));

    // filtered_entries should only return key press events
    let filtered = log.filtered_entries();
    assert_eq!(filtered.len(), 2);

    // But all entries should still be in the log
    assert_eq!(log.len(), 4);
}

#[test]
fn test_event_type_label() {
    assert_eq!(EventType::KeyPress("A".to_string()).label(), "KEY");
    assert_eq!(EventType::PtyOutput(100).label(), "PTY OUT");
    assert_eq!(EventType::PtyInput(50).label(), "PTY IN");
    assert_eq!(EventType::Bell.label(), "BELL");
    assert_eq!(EventType::Resize(80, 24).label(), "RESIZE");
    assert_eq!(EventType::MouseClick(10, 20).label(), "MOUSE");
}

#[test]
fn test_event_type_matches() {
    let key1 = EventType::KeyPress("A".to_string());
    let key2 = EventType::KeyPress("B".to_string());
    let bell = EventType::Bell;

    assert!(key1.matches(&EventType::KeyPress(String::new())));
    assert!(key2.matches(&EventType::KeyPress(String::new())));
    assert!(!bell.matches(&EventType::KeyPress(String::new())));
}

#[test]
fn test_log_entry_elapsed() {
    let entry = LogEntry::new(EventType::Bell, "Test".to_string());

    // Should be very recent
    assert!(entry.elapsed().as_secs() < 1);

    // elapsed_str should return milliseconds for recent events
    let elapsed_str = entry.elapsed_str();
    assert!(elapsed_str.ends_with("ms"));
}

#[test]
fn test_recent_entries() {
    let mut log = EventLog::new(100);

    for i in 0..10 {
        log.log(
            EventType::Custom(format!("{}", i)),
            format!("Event {}", i),
        );
    }

    // Get 5 most recent
    let recent = log.recent(5);
    assert_eq!(recent.len(), 5);

    // Should be in reverse order (most recent first)
    if let EventType::Custom(ref s) = recent[0].event_type {
        assert_eq!(s, "9"); // Most recent
    } else {
        panic!("Expected Custom event");
    }
}
