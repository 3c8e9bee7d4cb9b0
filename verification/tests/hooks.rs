use agterm::settings::{Hook, HookAction, HookEvent, HookManager, QUIET_VOLUME_BITS};

fn notify(title: &str, message: &str) -> HookAction {
    HookAction::Notify { title: title.to_string(), message: message.to_string() }
}

#[test]
fn test_hook_creation() {
    let hook = Hook::new("Test Hook".to_string(), HookEvent::Bell, notify("Test", "Test message"));

    assert_eq!(hook.name, "Test Hook");
    assert_eq!(hook.event_type, HookEvent::Bell);
    assert!(hook.enabled);
}

#[test]
fn test_default_hooks() {
    let hooks = Hook::default_hooks();
    assert!(!hooks.is_empty());

    let has_notify = hooks.iter().any(|h| matches!(h.action, HookAction::Notify { .. }));
    assert!(has_notify);

    let has_bell = hooks.iter().any(|h| matches!(h.event_type, HookEvent::Bell));
    assert!(has_bell);
}

#[test]
fn test_hook_event_matching_bell() {
    let hook = Hook::new("Bell Test".to_string(), HookEvent::Bell, notify("Bell", "Bell received"));

    assert!(hook.matches_event(&HookEvent::Bell));
    assert!(!hook.matches_event(&HookEvent::CommandComplete { command_pattern: None, exit_code: None }));
}

#[test]
fn test_hook_event_matching_command_complete() {
    let hook = Hook::new(
        "Command Test".to_string(),
        HookEvent::CommandComplete { command_pattern: Some("git.*".to_string()), exit_code: Some(0) },
        notify("Git Success", "Git command succeeded"),
    );

    assert!(hook.matches_event(&HookEvent::CommandComplete {
        command_pattern: Some("git status".to_string()),
        exit_code: Some(0),
    }));

    assert!(!hook.matches_event(&HookEvent::CommandComplete {
        command_pattern: Some("ls".to_string()),
        exit_code: Some(0),
    }));

    assert!(!hook.matches_event(&HookEvent::CommandComplete {
        command_pattern: Some("git status".to_string()),
        exit_code: Some(1),
    }));
}

#[test]
fn test_hook_event_matching_wildcard() {
    let hook = Hook::new(
        "Any Command".to_string(),
        HookEvent::CommandComplete { command_pattern: None, exit_code: None },
        notify("Command", "Any command completed"),
    );

    assert!(hook.matches_event(&HookEvent::CommandComplete {
        command_pattern: Some("anything".to_string()),
        exit_code: Some(0),
    }));

    assert!(hook.matches_event(&HookEvent::CommandComplete {
        command_pattern: Some("something else".to_string()),
        exit_code: Some(1),
    }));
}

#[test]
fn test_hook_event_matching_directory_change() {
    let hook = Hook::new(
        "Home Dir".to_string(),
        HookEvent::DirectoryChange { directory_pattern: Some("home".to_string()) },
        notify("Directory", "Changed to home"),
    );

    assert!(hook.matches_event(&HookEvent::DirectoryChange { directory_pattern: Some("/home/user".to_string()) }));

    assert!(!hook.matches_event(&HookEvent::DirectoryChange { directory_pattern: Some("/tmp".to_string()) }));
}

#[test]
fn test_hook_event_matching_output_pattern() {
    let hook = Hook::new(
        "Error Pattern".to_string(),
        HookEvent::OutputMatch { pattern: "(?i)error".to_string() },
        notify("Error", "Error detected"),
    );

    assert!(hook.matches_event(&HookEvent::OutputMatch { pattern: "Error occurred".to_string() }));

    assert!(hook.matches_event(&HookEvent::OutputMatch { pattern: "ERROR: something failed".to_string() }));

    assert!(!hook.matches_event(&HookEvent::OutputMatch { pattern: "Success".to_string() }));
}

#[test]
fn test_hook_disabled() {
    let mut hook = Hook::new("Disabled Hook".to_string(), HookEvent::Bell, notify("Test", "Test"));

    hook.enabled = false;
    assert!(!hook.matches_event(&HookEvent::Bell));
}

#[test]
fn test_hook_action_types() {
    let notify_hook = Hook::new("Notify".to_string(), HookEvent::Bell, notify("Title", "Message"));
    assert!(matches!(notify_hook.action, HookAction::Notify { .. }));

    let command_hook = Hook::new(
        "Command".to_string(),
        HookEvent::Bell,
        HookAction::RunCommand { command: "echo".to_string(), args: vec!["hello".to_string()] },
    );
    assert!(matches!(command_hook.action, HookAction::RunCommand { .. }));

    let sound_hook = Hook::new(
        "Sound".to_string(),
        HookEvent::Bell,
        HookAction::PlaySound { path: "/path/to/sound.wav".to_string(), volume_bits: 0.5f32.to_bits() },
    );
    assert!(matches!(sound_hook.action, HookAction::PlaySound { .. }));

    let custom_hook = Hook::new(
        "Custom".to_string(),
        HookEvent::Bell,
        HookAction::Custom { id: "custom_action".to_string(), params: Vec::new() },
    );
    assert!(matches!(custom_hook.action, HookAction::Custom { .. }));
}

#[test]
fn test_hook_manager_creation() {
    let manager = HookManager::new(Hook::default_hooks());
    assert!(!manager.hooks().is_empty());
}

#[test]
fn test_hook_manager_add_remove() {
    let mut manager = HookManager::new(Hook::default_hooks());
    let initial_count = manager.hooks().len();

    let hook = Hook::new("New Hook".to_string(), HookEvent::Bell, notify("Test", "Test"));

    manager.add_hook(hook);
    assert_eq!(manager.hooks().len(), initial_count + 1);

    assert!(manager.remove_hook("New Hook"));
    assert_eq!(manager.hooks().len(), initial_count);

    assert!(!manager.remove_hook("Nonexistent Hook"));
}

#[test]
fn test_hook_manager_enable_disable() {
    let mut manager = HookManager::new(Hook::default_hooks());

    let hook = Hook::new("Toggle Hook".to_string(), HookEvent::Bell, notify("Test", "Test"));
    manager.add_hook(hook);

    assert!(manager.set_hook_enabled("Toggle Hook", false));
    let hook = manager.hooks().iter().find(|h| h.name == "Toggle Hook").unwrap();
    assert!(!hook.enabled);

    assert!(manager.set_hook_enabled("Toggle Hook", true));
    let hook = manager.hooks().iter().find(|h| h.name == "Toggle Hook").unwrap();
    assert!(hook.enabled);

    assert!(!manager.set_hook_enabled("Nonexistent", false));
}

#[test]
fn test_hook_manager_process_event() {
    let manager = HookManager::new(Hook::default_hooks());
    manager.process_event(&HookEvent::Bell);
    manager.process_event(&HookEvent::CommandComplete { command_pattern: None, exit_code: None });
}

#[test]
fn hook_defaults_and_firing_positions() {
    let hooks = Hook::default_hooks();
    assert_eq!(hooks.len(), 4);
    assert!(matches!(&hooks[1].action, HookAction::PlaySound { volume_bits, .. } if *volume_bits == QUIET_VOLUME_BITS));
    assert_eq!(f32::from_bits(QUIET_VOLUME_BITS), 0.3f32);
    let mut manager = HookManager::new(hooks);
    assert_eq!(manager.process_event(&HookEvent::CommandComplete { command_pattern: None, exit_code: Some(2) }), vec![0]);
    assert!(manager.process_event(&HookEvent::Bell).is_empty());
    assert!(manager.set_hook_enabled("Error Bell", true));
    manager.add_hook(Hook::new("Second Bell".to_string(), HookEvent::Bell, notify("a", "b")));
    assert_eq!(manager.matching_hooks(&HookEvent::Bell), vec![1, 4]);
    assert!(manager.set_hook_enabled("Error Pattern", true));
    assert_eq!(manager.matching_hooks(&HookEvent::OutputMatch { pattern: "FATAL crash".to_string() }), vec![3]);
    assert!(manager.matching_hooks(&HookEvent::OutputMatch { pattern: "all good".to_string() }).is_empty());
}
