use agterm::aliases::{Alias, AliasError, AliasManager};

#[test]
fn test_alias_creation() {
    let alias = Alias::new("ll", "ls -la");
    assert_eq!(alias.name, "ll");
    assert_eq!(alias.command, "ls -la");
    assert!(alias.enabled);
    assert!(alias.description.is_none());
    assert!(alias.category.is_none());
}

#[test]
fn test_alias_with_description() {
    let alias = Alias::with_description("ll", "ls -la", "List all files");
    assert_eq!(alias.description, Some("List all files".to_string()));
}

#[test]
fn test_alias_with_category() {
    let alias = Alias::new("ll", "ls -la").with_category("file");
    assert_eq!(alias.category, Some("file".to_string()));
}

#[test]
fn test_add_alias() {
    let mut manager = AliasManager::new();
    assert!(manager
        .add_alias("ll", "ls -la", Some("List all files"))
        .is_ok());
    assert_eq!(manager.len(), 1);

    let alias = manager.get_alias("ll").unwrap();
    assert_eq!(alias.name, "ll");
    assert_eq!(alias.command, "ls -la");
}

#[test]
fn test_duplicate_alias() {
    let mut manager = AliasManager::new();
    manager.add_alias("ll", "ls -la", None).unwrap();
    let result = manager.add_alias("ll", "ls -lah", None);
    assert!(matches!(result, Err(AliasError::AlreadyExists(_))));
}

#[test]
fn test_remove_alias() {
    let mut manager = AliasManager::new();
    manager.add_alias("ll", "ls -la", None).unwrap();
    assert_eq!(manager.len(), 1);

    let removed = manager.remove_alias("ll");
    assert!(removed.is_ok());
    assert_eq!(manager.len(), 0);
}

#[test]
fn test_update_alias() {
    let mut manager = AliasManager::new();
    manager.add_alias("ll", "ls -la", None).unwrap();

    manager.update_alias("ll", "ls -lah").unwrap();
    let alias = manager.get_alias("ll").unwrap();
    assert_eq!(alias.command, "ls -lah");
}

#[test]
fn test_list_aliases() {
    let mut manager = AliasManager::new();
    manager.add_alias("ll", "ls -la", None).unwrap();
    manager.add_alias("la", "ls -A", None).unwrap();
    manager.add_alias("gs", "git status", None).unwrap();

    let aliases = manager.list_aliases();
    assert_eq!(aliases.len(), 3);
    // Check sorting
    assert_eq!(aliases[0].name, "gs");
    assert_eq!(aliases[1].name, "la");
    assert_eq!(aliases[2].name, "ll");
}

#[test]
fn test_toggle_alias() {
    let mut manager = AliasManager::new();
    manager.add_alias("ll", "ls -la", None).unwrap();

    assert!(manager.get_alias("ll").unwrap().enabled);

    let new_state = manager.toggle_alias("ll").unwrap();
    assert!(!new_state);
    assert!(!manager.get_alias("ll").unwrap().enabled);

    let new_state = manager.toggle_alias("ll").unwrap();
    assert!(new_state);
}

#[test]
fn test_expand_simple_alias() {
    let mut manager = AliasManager::new();
    manager.add_alias("ll", "ls -la", None).unwrap();

    let expanded = manager.expand_command("ll");
    assert_eq!(expanded, "ls -la");
}

#[test]
fn test_expand_alias_with_args() {
    let mut manager = AliasManager::new();
    manager.add_alias("ll", "ls -la", None).unwrap();

    let expanded = manager.expand_command("ll /tmp");
    assert_eq!(expanded, "ls -la /tmp");
}

#[test]
fn test_expand_with_parameter_substitution() {
    let mut manager = AliasManager::new();
    manager
        .add_alias("greet", "echo Hello $1, welcome to $2!", None)
        .unwrap();

    let expanded = manager.expand_command("greet Alice AgTerm");
    assert_eq!(expanded, "echo Hello Alice, welcome to AgTerm!");
}

#[test]
fn test_expand_with_all_args() {
    let mut manager = AliasManager::new();
    manager
        .add_alias("mygrep", "grep --color=auto ${*}", None)
        .unwrap();

    let expanded = manager.expand_command("mygrep pattern file1.txt file2.txt");
    assert_eq!(expanded, "grep --color=auto pattern file1.txt file2.txt");
}

#[test]
fn test_expand_with_dollar_star() {
    let mut manager = AliasManager::new();
    manager
        .add_alias("mygrep", "grep --color=auto $*", None)
        .unwrap();

    let expanded = manager.expand_command("mygrep pattern file.txt");
    assert_eq!(expanded, "grep --color=auto pattern file.txt");
}

#[test]
fn test_expand_nested_alias() {
    let mut manager = AliasManager::new();
    manager.add_alias("ll", "ls -la", None).unwrap();
    manager.add_alias("lll", "ll", None).unwrap();

    let expanded = manager.expand_command("lll /tmp");
    assert_eq!(expanded, "ls -la /tmp");
}

#[test]
fn test_disabled_alias() {
    let mut manager = AliasManager::new();
    manager.add_alias("ll", "ls -la", None).unwrap();
    manager.toggle_alias("ll").unwrap();

    let expanded = manager.expand_command("ll");
    assert_eq!(expanded, "ll"); // Not expanded because disabled
}

#[test]
fn test_category_filtering() {
    let mut manager = AliasManager::new();
    manager.add_alias("ll", "ls -la", None).unwrap();
    manager.add_alias("gs", "git status", None).unwrap();
    manager.add_alias("gp", "git push", None).unwrap();

    // Manually set categories
    manager.get_alias_mut("ll").unwrap().category = Some("file".to_string());
    manager.get_alias_mut("gs").unwrap().category = Some("git".to_string());
    manager.get_alias_mut("gp").unwrap().category = Some("git".to_string());
    manager.rebuild_category_index();

    let git_aliases = manager.get_by_category("git");
    assert_eq!(git_aliases.len(), 2);

    let file_aliases = manager.get_by_category("file");
    assert_eq!(file_aliases.len(), 1);
}

#[test]
fn test_get_categories() {
    let mut manager = AliasManager::new();
    manager.add_alias("ll", "ls -la", None).unwrap();
    manager.add_alias("gs", "git status", None).unwrap();

    manager.get_alias_mut("ll").unwrap().category = Some("file".to_string());
    manager.get_alias_mut("gs").unwrap().category = Some("git".to_string());
    manager.rebuild_category_index();

    let categories = manager.get_categories();
    assert_eq!(categories.len(), 2);
    assert!(categories.contains(&"file".to_string()));
    assert!(categories.contains(&"git".to_string()));
}

#[test]
fn test_export_to_shell() {
    let mut manager = AliasManager::new();
    manager.add_alias("ll", "ls -la", Some("List all")).unwrap();
    manager.add_alias("gs", "git status", Some("Git status")).unwrap();

    let shell_output = manager.export_to_shell();
    assert!(shell_output.contains("alias ll='ls -la'"));
    assert!(shell_output.contains("alias gs='git status'"));
    assert!(shell_output.contains("# List all"));
    assert!(shell_output.contains("# Git status"));
}

    #[test]
    fn test_import_from_shell() {
        let shell_content = r#"
# My aliases
# List all files
alias ll='ls -la'
# Git status
alias gs='git status'
alias gp='git push'
"#;

        let mut manager = AliasManager::new();
        let imported = manager.import_from_shell(shell_content).unwrap();

        assert_eq!(imported, 3);
        assert!(manager.contains("ll"));
        assert!(manager.contains("gs"));
        assert!(manager.contains("gp"));
        assert_eq!(
            manager.get_alias("ll").unwrap().description,
            Some("List all files".to_string())
        );
    }

#[test]
fn test_parse_shell_alias() {
    let test_cases = vec![
        ("ll='ls -la'", Some(("ll".to_string(), "ls -la".to_string()))),
        ("gs=\"git status\"", Some(("gs".to_string(), "git status".to_string()))),
        ("gp=git push", Some(("gp".to_string(), "git push".to_string()))),
        ("invalid", None),
    ];

    for (input, expected) in test_cases {
        let result = AliasManager::parse_shell_alias(input);
        assert_eq!(result, expected, "Failed for input: {}", input);
    }
}

#[test]
fn test_detect_category() {
    let test_cases = vec![
        ("git status", Some("git")),
        ("docker ps", Some("docker")),
        ("cargo build", Some("rust")),
        ("npm install", Some("nodejs")),
        ("ls -la", Some("file")),
        ("echo hello", Some("system")),
    ];

    for (command, expected_category) in test_cases {
        let detected = AliasManager::detect_category(command);
        assert_eq!(
            detected.as_deref(),
            expected_category,
            "Failed for command: {}",
            command
        );
    }
}

#[test]
fn test_default_aliases() {
    let manager = AliasManager::with_defaults();

    // Check that we have default aliases
    assert!(!manager.is_empty());

    // Check for some expected aliases
    assert!(manager.contains("ll"));
    assert!(manager.contains("gs"));
    assert!(manager.contains("gp"));
    assert!(manager.contains("cb"));

    // Check categories
    let categories = manager.get_categories();
    assert!(categories.contains(&"git".to_string()));
    assert!(categories.contains(&"docker".to_string()));
    assert!(categories.contains(&"rust".to_string()));
}

#[test]
fn test_parameter_substitution_complex() {
    let mut manager = AliasManager::new();
    manager
        .add_alias("deploy", "docker run -d --name $1 -p $2:$2 ${3}", None)
        .unwrap();

    let expanded = manager.expand_command("deploy myapp 8080 nginx");
    assert_eq!(expanded, "docker run -d --name myapp -p 8080:8080 nginx");
}

#[test]
fn test_parameter_arg_count() {
    let mut manager = AliasManager::new();
    manager
        .add_alias("count", "echo You provided $# arguments", None)
        .unwrap();

    let expanded = manager.expand_command("count a b c");
    assert_eq!(expanded, "echo You provided 3 arguments");
}

#[test]
fn test_max_recursion_protection() {
    let mut manager = AliasManager::new();
    manager.max_recursion_depth = 3;

    // Create circular reference
    manager.add_alias("a", "b", None).unwrap();
    manager.add_alias("b", "c", None).unwrap();
    manager.add_alias("c", "d", None).unwrap();
    manager.add_alias("d", "e", None).unwrap();
    manager.add_alias("e", "f", None).unwrap();

    // Should stop expanding after max depth
    let expanded = manager.expand_command("a");
    // Due to depth limit, it won't expand all the way
    assert!(expanded.len() > 0);
}

#[test]
fn test_empty_command_validation() {
    let mut manager = AliasManager::new();
    let result = manager.add_alias("empty", "", None);
    assert!(matches!(result, Err(AliasError::InvalidCommand(_))));
}

#[test]
fn test_empty_name_validation() {
    let mut manager = AliasManager::new();
    let result = manager.add_alias("", "ls -la", None);
    assert!(matches!(result, Err(AliasError::InvalidName(_))));
}

#[test]
fn test_list_enabled_only() {
    let mut manager = AliasManager::new();
    manager.add_alias("a", "cmd1", None).unwrap();
    manager.add_alias("b", "cmd2", None).unwrap();
    manager.add_alias("c", "cmd3", None).unwrap();

    manager.toggle_alias("b").unwrap(); // Disable b

    let all = manager.list_aliases();
    assert_eq!(all.len(), 3);

    let enabled = manager.list_enabled_aliases();
    assert_eq!(enabled.len(), 2);
    assert!(enabled.iter().all(|a| a.name != "b"));
}

#[test]
fn test_clear() {
    let mut manager = AliasManager::new();
    manager.add_alias("a", "cmd1", None).unwrap();
    manager.add_alias("b", "cmd2", None).unwrap();

    assert_eq!(manager.len(), 2);
    manager.clear();
    assert_eq!(manager.len(), 0);
    assert!(manager.is_empty());
}
