use agterm::debug::panel::LogLevel;
use agterm::runtime::{parse_level, ActiveView, AppConfig, AppState, RunningState};

#[test]
fn test_parse_level() {
    assert_eq!(parse_level("trace"), LogLevel::Trace);
    assert_eq!(parse_level("DEBUG"), LogLevel::Debug);
    assert_eq!(parse_level("Info"), LogLevel::Info);
    assert_eq!(parse_level("WARN"), LogLevel::Warn);
    assert_eq!(parse_level("error"), LogLevel::Error);
    assert_eq!(parse_level("unknown"), LogLevel::Info);
}

#[test]
fn test_app_state_lifecycle() {
    let config = AppConfig::with_shell(None);
    let mut state = AppState::new(config, 1, "/tmp".to_string());

    assert_eq!(state.running_state, RunningState::Starting);
    assert!(!state.is_running());

    state.start();
    assert_eq!(state.running_state, RunningState::Running);
    assert!(state.is_running());

    state.request_shutdown();
    assert_eq!(state.running_state, RunningState::ShuttingDown);
    assert!(!state.is_running());
    assert!(state.should_quit);

    state.stop();
    assert_eq!(state.running_state, RunningState::Stopped);
}

#[test]
fn test_view_switching() {
    let config = AppConfig::with_shell(None);
    let mut state = AppState::new(config, 1, "/tmp".to_string());

    assert_eq!(state.active_view, ActiveView::Main);

    state.switch_view(ActiveView::Graph);
    assert_eq!(state.active_view, ActiveView::Graph);

    state.switch_view(ActiveView::Archive);
    assert_eq!(state.active_view, ActiveView::Archive);
}

#[test]
fn test_default_config() {
    let config = AppConfig::with_shell(None);
    assert_eq!(config.general.app_name, "agterm");
    assert_eq!(config.pty.max_sessions, 32);
    assert_eq!(config.tui.target_fps, 60);
}
