use agterm::completion::{CompletionEngine, CompletionKind};

#[test]
fn test_add_to_history() {
    let mut engine = CompletionEngine::new();
    engine.add_to_history("ls -la");
    engine.add_to_history("cd /tmp");
    engine.add_to_history("pwd");

    assert_eq!(engine.get_history().len(), 3);
    assert_eq!(engine.get_history()[0], "pwd");
    assert_eq!(engine.get_history()[1], "cd /tmp");
    assert_eq!(engine.get_history()[2], "ls -la");
}

#[test]
fn test_history_deduplication() {
    let mut engine = CompletionEngine::new();
    engine.add_to_history("ls");
    engine.add_to_history("pwd");
    engine.add_to_history("ls");

    assert_eq!(engine.get_history().len(), 2);
    assert_eq!(engine.get_history()[0], "ls");
    assert_eq!(engine.get_history()[1], "pwd");
}

#[test]
fn test_complete_command() {
    let mut engine = CompletionEngine::new();
    engine.add_to_history("git status");
    engine.add_to_history("git log");

    let completions = engine.complete("git", "/tmp", &Vec::new());
    assert!(
        completions.iter().any(|c| c.text.starts_with("git")),
        "Should include git completions"
    );
}

#[test]
fn test_recent_history() {
    let mut engine = CompletionEngine::new();
    for i in 0..15 {
        engine.add_to_history(&format!("command{}", i));
    }

    let recent = engine.recent_history(10);
    assert_eq!(recent.len(), 10);
    assert_eq!(recent[0].text, "command14");
    assert_eq!(recent[0].kind, CompletionKind::History);
}

#[test]
fn test_empty_input_returns_history() {
    let mut engine = CompletionEngine::new();
    engine.add_to_history("test command");

    let completions = engine.complete("", "/tmp", &Vec::new());
    assert!(
        completions.iter().any(|c| c.kind == CompletionKind::History),
        "Empty input should return history"
    );
}

#[test]
fn test_completion_kind_prefix() {
    assert_eq!(CompletionKind::Command.prefix(), "cmd");
    assert_eq!(CompletionKind::File.prefix(), "file");
    assert_eq!(CompletionKind::Directory.prefix(), "dir");
    assert_eq!(CompletionKind::History.prefix(), "hist");
    assert_eq!(CompletionKind::Alias.prefix(), "alias");
}

#[test]
fn test_completion_engine_new() {
    let mut engine = CompletionEngine::new();
    engine.load_path_commands(vec!["ls".to_string(), "git".to_string()]);
    let items = engine.complete_command("l");
    assert!(items.iter().any(|i| i.text == "ls"), "Should load PATH commands");
}
