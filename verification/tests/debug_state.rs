use agterm::debug::{InputDebugState, PtyDebugInfo};
use std::time::Duration;

#[test]
fn test_input_debug_state() {
    let mut state = InputDebugState::default();

    state.record_key("A", "Ctrl");
    assert_eq!(state.last_key, Some("A".to_string()));
    assert_eq!(state.last_modifiers, Some("Ctrl".to_string()));

    state.update_ime(true, "한");
    assert!(state.ime_composing);
    assert_eq!(state.ime_preedit, "한");
}

#[test]
fn test_pty_debug_info() {
    let info = PtyDebugInfo::new("test-session".to_string());
    assert!(info.active);
    assert_eq!(info.bytes_read, 0);
    assert!(info.uptime() < Duration::from_secs(1));
}
