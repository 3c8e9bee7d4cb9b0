use agterm::config::{KeyBinding, KeyModifiers, KeybindingsConfig, Snippet};

#[test]
fn test_snippet_creation() {
    let snippet = Snippet::new(
        "Test Snippet".to_string(),
        "/test".to_string(),
        "echo test".to_string(),
        "testing".to_string(),
    );

    assert_eq!(snippet.name, "Test Snippet");
    assert_eq!(snippet.trigger, "/test");
    assert_eq!(snippet.content, "echo test");
    assert_eq!(snippet.category, "testing");
}

#[test]
fn test_default_snippets() {
    let snippets = Snippet::default_snippets();

    // Should have multiple categories
    assert!(snippets.len() > 20);

    // Check git snippets exist
    let git_snippets: Vec<_> = snippets.iter().filter(|s| s.category == "git").collect();
    assert!(!git_snippets.is_empty());

    // Check docker snippets exist
    let docker_snippets: Vec<_> = snippets.iter().filter(|s| s.category == "docker").collect();
    assert!(!docker_snippets.is_empty());

    // Check cargo snippets exist
    let cargo_snippets: Vec<_> = snippets.iter().filter(|s| s.category == "cargo").collect();
    assert!(!cargo_snippets.is_empty());
}

#[test]
fn test_snippet_find_by_trigger() {
    let snippets = Snippet::default_snippets();

    // Test finding git status
    let result = Snippet::find_by_trigger(&snippets, "/gs");
    assert!(result.is_some());
    assert_eq!(result.unwrap().content, "git status");

    // Test finding non-existent trigger
    let result = Snippet::find_by_trigger(&snippets, "/nonexistent");
    assert!(result.is_none());
}

#[test]
fn test_snippet_find_by_category() {
    let snippets = Snippet::default_snippets();

    // Find all git snippets
    let git_snippets = Snippet::find_by_category(&snippets, "git");
    assert!(!git_snippets.is_empty());

    // All returned snippets should be in git category
    for snippet in git_snippets {
        assert_eq!(snippet.category, "git");
    }

    // Find all docker snippets
    let docker_snippets = Snippet::find_by_category(&snippets, "docker");
    assert!(!docker_snippets.is_empty());

    // Find non-existent category
    let empty = Snippet::find_by_category(&snippets, "nonexistent");
    assert!(empty.is_empty());
}

#[test]
fn test_snippet_get_categories() {
    let snippets = Snippet::default_snippets();
    let categories = Snippet::get_categories(&snippets);

    // Should have multiple categories
    assert!(categories.len() > 3);

    // Should contain expected categories
    assert!(categories.contains(&"git".to_string()));
    assert!(categories.contains(&"docker".to_string()));
    assert!(categories.contains(&"cargo".to_string()));
    assert!(categories.contains(&"common".to_string()));

    // Categories should be sorted and unique
    let mut sorted_categories = categories.clone();
    sorted_categories.sort();
    assert_eq!(categories, sorted_categories);
}

#[test]
fn test_snippet_triggers_unique() {
    let snippets = Snippet::default_snippets();
    let mut triggers = std::collections::HashSet::new();

    // All triggers should be unique
    for snippet in &snippets {
        assert!(
            triggers.insert(&snippet.trigger),
            "Duplicate trigger found: {}",
            snippet.trigger
        );
    }
}

#[test]
fn test_snippet_git_commands() {
    let snippets = Snippet::default_snippets();

    // Test specific git commands
    let gs = Snippet::find_by_trigger(&snippets, "/gs").unwrap();
    assert_eq!(gs.content, "git status");

    let ga = Snippet::find_by_trigger(&snippets, "/ga").unwrap();
    assert_eq!(ga.content, "git add .");

    let gp = Snippet::find_by_trigger(&snippets, "/gp").unwrap();
    assert_eq!(gp.content, "git push");

    let gl = Snippet::find_by_trigger(&snippets, "/gl").unwrap();
    assert_eq!(gl.content, "git log --oneline -10");
}

#[test]
fn test_snippet_docker_commands() {
    let snippets = Snippet::default_snippets();

    // Test specific docker commands
    let dps = Snippet::find_by_trigger(&snippets, "/dps").unwrap();
    assert_eq!(dps.content, "docker ps");

    let di = Snippet::find_by_trigger(&snippets, "/di").unwrap();
    assert_eq!(di.content, "docker images");

    let dcu = Snippet::find_by_trigger(&snippets, "/dcu").unwrap();
    assert_eq!(dcu.content, "docker-compose up -d");
}

#[test]
fn test_snippet_cargo_commands() {
    let snippets = Snippet::default_snippets();

    // Test specific cargo commands
    let cb = Snippet::find_by_trigger(&snippets, "/cb").unwrap();
    assert_eq!(cb.content, "cargo build");

    let cr = Snippet::find_by_trigger(&snippets, "/cr").unwrap();
    assert_eq!(cr.content, "cargo run");

    let ct = Snippet::find_by_trigger(&snippets, "/ct").unwrap();
    assert_eq!(ct.content, "cargo test");
}

#[test]
fn test_snippet_common_commands() {
    let snippets = Snippet::default_snippets();

    // Test common commands
    let ll = Snippet::find_by_trigger(&snippets, "/ll").unwrap();
    assert_eq!(ll.content, "ls -lah");

    let ff = Snippet::find_by_trigger(&snippets, "/ff").unwrap();
    assert_eq!(ff.content, "find . -name ");
}

#[test]
fn test_keybinding_creation() {
    let binding = KeyBinding::new("t".to_string(), KeyModifiers::cmd(), "new_tab".to_string());

    assert_eq!(binding.key, "t");
    assert_eq!(binding.action, "new_tab");
    assert_eq!(binding.modifiers.cmd, true);
    assert_eq!(binding.modifiers.ctrl, false);
}

#[test]
fn test_keybinding_key_combination() {
    let binding = KeyBinding::new(
        "t".to_string(),
        KeyModifiers::cmd_shift(),
        "new_tab".to_string(),
    );

    assert_eq!(binding.key_combination(), "Shift+Cmd+t");
}

#[test]
fn test_default_bindings() {
    let bindings = KeybindingsConfig::default_bindings();

    assert!(!bindings.is_empty());

    // Check that specific bindings exist
    let has_new_tab = bindings.iter().any(|b| b.action == "new_tab");
    let has_close_tab = bindings.iter().any(|b| b.action == "close_tab");
    let has_copy = bindings.iter().any(|b| b.action == "force_copy");

    assert!(has_new_tab);
    assert!(has_close_tab);
    assert!(has_copy);
}

#[test]
fn test_conflict_detection_no_conflicts() {
    let bindings = vec![
        KeyBinding::new("t".to_string(), KeyModifiers::cmd(), "new_tab".to_string()),
        KeyBinding::new(
            "w".to_string(),
            KeyModifiers::cmd(),
            "close_tab".to_string(),
        ),
        KeyBinding::new(
            "t".to_string(),
            KeyModifiers::ctrl(),
            "different_action".to_string(),
        ),
    ];

    let conflicts = KeybindingsConfig::detect_conflicts(&bindings);
    assert_eq!(conflicts.len(), 0);
}

#[test]
fn test_conflict_detection_with_conflicts() {
    let binding1 = KeyBinding::new("t".to_string(), KeyModifiers::cmd(), "new_tab".to_string());
    let binding2 = KeyBinding::new(
        "t".to_string(),
        KeyModifiers::cmd(),
        "other_action".to_string(),
    );

    let bindings = vec![binding1, binding2];

    let conflicts = KeybindingsConfig::detect_conflicts(&bindings);
    assert_eq!(conflicts.len(), 1);
}

#[test]
fn test_find_binding() {
    let config = KeybindingsConfig::default();

    // Find Cmd+T binding
    let binding = config.find_binding("t", &KeyModifiers::cmd());
    assert!(binding.is_some());
    assert_eq!(binding.unwrap().action, "new_tab");

    // Try to find non-existent binding
    let no_binding = config.find_binding("x", &KeyModifiers::cmd());
    assert!(no_binding.is_none());
}

#[test]
fn test_bindings_for_action() {
    let config = KeybindingsConfig::default();

    let bindings = config.bindings_for_action("toggle_debug_panel");
    assert!(bindings.len() >= 1); // Should have at least one binding for debug panel
}

#[test]
fn test_key_modifiers() {
    let ctrl = KeyModifiers::ctrl();
    assert!(ctrl.ctrl);
    assert!(!ctrl.shift);
    assert!(!ctrl.alt);
    assert!(!ctrl.cmd);

    let cmd_shift = KeyModifiers::cmd_shift();
    assert!(cmd_shift.cmd);
    assert!(cmd_shift.shift);
    assert!(!cmd_shift.ctrl);
    assert!(!cmd_shift.alt);
}

#[test]
fn custom_binding_overrides_same_keys() {
    let defaults = vec![
        KeyBinding::new("t".to_string(), KeyModifiers::cmd(), "new_tab".to_string()),
        KeyBinding::new("w".to_string(), KeyModifiers::cmd(), "close_tab".to_string()),
        KeyBinding::new("t".to_string(), KeyModifiers::ctrl(), "other".to_string()),
    ];
    let custom = vec![KeyBinding::new("t".to_string(), KeyModifiers::cmd(), "my_tab".to_string())];
    let merged = KeybindingsConfig::merge_bindings(defaults, custom);
    let actions: Vec<&str> = merged.iter().map(|b| b.action.as_str()).collect();
    assert_eq!(actions, vec!["close_tab", "other", "my_tab"]);
}

#[test]
fn merge_with_no_custom_keeps_defaults() {
    let defaults = KeybindingsConfig::default_bindings();
    let n = defaults.len();
    let merged = KeybindingsConfig::merge_bindings(defaults, Vec::new());
    assert_eq!(merged.len(), n);
}
