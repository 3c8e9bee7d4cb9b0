use agterm::tasks::TaskStatus;

#[test]
fn test_status_checks() {
    assert!(TaskStatus::Completed.is_terminal());
    assert!(TaskStatus::Failed.is_terminal());
    assert!(!TaskStatus::Running.is_terminal());

    assert!(TaskStatus::Pending.is_runnable());
    assert!(!TaskStatus::Blocked.is_runnable());

    assert!(TaskStatus::Running.is_active());
    assert!(TaskStatus::Blocked.is_active());
}
