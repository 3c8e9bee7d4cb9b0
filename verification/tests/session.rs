use agterm::session::{Session, SessionStatus};

#[test]
fn test_session_creation() {
    let session = Session::new("/tmp/test".to_string());

    assert!(session.is_active());
    assert!(session.ended_at.is_none());
    assert_eq!(session.working_dir, "/tmp/test");
}

#[test]
fn test_session_end() {
    let mut session = Session::new("/tmp/test".to_string());
    session.end();

    assert!(!session.is_active());
    assert!(session.ended_at.is_some());
    assert_eq!(session.status, SessionStatus::Completed);
}

#[test]
fn session_duration_and_crash() {
    let mut session = Session::with_identity(7, "/w".to_string(), 1_000);
    assert_eq!(session.duration_ms_at(4_500), 3_500);
    session.mark_crashed_at(2_000);
    assert_eq!(session.status, SessionStatus::Crashed);
    assert_eq!(session.duration_ms_at(99_999), 1_000);
    assert!(session.task_graph.as_ref().unwrap().is_empty());
}
