use agterm::memory::{estimate_tokens, CompactedOutput, CompactionConfig, Compactor, MemoryBlock, MemoryBlockLabel};

#[test]
fn test_compaction_config_default() {
    let config = CompactionConfig::default();

    assert_eq!(config.last_lines_count, 10);
    assert!(!config.enable_ai_summary);
}

    #[test]
    fn test_extract_errors() {
        let compactor = Compactor::with_defaults();
        let output = r#"
Building...
error: cannot find module 'foo'
error: type mismatch
warning: unused variable
Done.
"#;

        let errors = compactor.detect_errors(output);
        assert_eq!(errors.len(), 2);
    }

    #[test]
    fn test_extract_warnings() {
        let compactor = Compactor::with_defaults();
        let output = r#"
Compiling...
warning: unused import
warning: deprecated function
Finished.
"#;

        let warnings = compactor.detect_warnings(output);
        assert_eq!(warnings.len(), 2);
    }

#[test]
fn test_detect_success() {
    let compactor = Compactor::with_defaults();

    assert!(compactor.detect_success("Build completed successfully").is_some());
    assert!(compactor.detect_success("All tests passed").is_some());
    assert!(compactor.detect_success("random text").is_none());
}

#[test]
fn test_needs_compaction() {
    let config = CompactionConfig {
        max_output_size: 100,
        ..CompactionConfig::default()
    };
    let compactor = Compactor::new(config);

    assert!(!compactor.needs_compaction("short output"));
    assert!(compactor.needs_compaction(&"x".repeat(200)));
}

#[test]
fn test_token_estimation() {
    let text = "Hello, world! This is a test.";
    let tokens = estimate_tokens(text);

    // Should be roughly 7-10 tokens
    assert!(tokens > 0);
    assert!(tokens < 20);
}

#[test]
fn test_memory_block_creation() {
    let block = MemoryBlock::new(MemoryBlockLabel::TaskProgress, 1000);

    assert_eq!(block.label, MemoryBlockLabel::TaskProgress);
    assert_eq!(block.token_limit, 1000);
    assert_eq!(block.current_tokens, 0);
    assert!(block.value.is_empty());
}

#[test]
fn test_memory_block_update() {
    let mut block = MemoryBlock::new(MemoryBlockLabel::RecentOutput, 1000);
    block.update("Hello, world!".to_string());

    assert!(!block.value.is_empty());
    assert!(block.current_tokens > 0);
}

#[test]
fn test_memory_block_append() {
    let mut block = MemoryBlock::new(MemoryBlockLabel::RecentOutput, 1000);
    block.append("Line 1\n");
    block.append("Line 2\n");

    assert!(block.value.contains("Line 1"));
    assert!(block.value.contains("Line 2"));
}

#[test]
fn test_truncate_to_limit_keeps_newest_bytes() {
    let mut block = MemoryBlock::new(MemoryBlockLabel::RecentOutput, 2);
    block.update("abcdefghijklmnopqrstuvwxyz".to_string());
    assert!(block.is_over_limit());
    block.truncate_to_limit();
    assert_eq!(block.value, "... [truncated 18 chars]\nstuvwxyz");
    assert_eq!(block.current_tokens, estimate_tokens(&block.value));

    let mut roomy = MemoryBlock::new(MemoryBlockLabel::RecentOutput, 100);
    roomy.update("short".to_string());
    roomy.truncate_to_limit();
    assert_eq!(roomy.value, "short");
}

#[test]
fn compact_keeps_summary_and_last_lines() {
    let compactor = Compactor::new(CompactionConfig { last_lines_count: 2, ..Default::default() });
    let output = "Building...\nerror: cannot find module 'foo'\nwarning: unused\nexit code:3\n";
    let c = compactor.compact(output, "/tmp/x.log".to_string());
    assert_eq!(c.summary, "Exit: 3\nErrors:\n  - error: cannot find module 'foo'\nWarnings: 1 total\n");
    assert_eq!(c.last_lines, vec!["warning: unused".to_string(), "exit code:3".to_string()]);
    assert_eq!(c.full_log_path, "/tmp/x.log");
    assert_eq!(c.original_size, output.len());
    assert_eq!(c.compacted_size, c.summary.len() + "warning: unused".len() + "exit code:3".len());
}

#[test]
fn compact_success_and_plain_output() {
    let compactor = Compactor::with_defaults();
    let c = compactor.compact("all good\nexited with 0", "l".to_string());
    assert_eq!(c.summary, "Exit: 0 (success)\n");
    let c = compactor.compact("abc\ndef", "l".to_string());
    assert_eq!(c.summary, "Output: 2 lines, 7 bytes");
    assert_eq!(c.last_lines.len(), 2);
}

#[test]
fn compact_lists_at_most_five_errors() {
    let compactor = Compactor::with_defaults();
    let output = "error: a\nerror: b\nerror: c\nerror: d\nerror: e\nerror: f\nerror: g";
    let c = compactor.compact(output, "l".to_string());
    assert_eq!(
        c.summary,
        "Errors:\n  - error: a\n  - error: b\n  - error: c\n  - error: d\n  - error: e\n  ... and 2 more\n"
    );
}

#[test]
fn compact_checked_agrees_with_compact() {
    let compactor = Compactor::with_defaults();
    let c = compactor.compact_checked("Exit code:-1 done", "l".to_string()).unwrap();
    assert_eq!(c.summary, "Exit: -1\nStatus: Done\n");
}

#[test]
fn compacted_output_display_string() {
    let c = CompactedOutput {
        summary: "Status: Done".to_string(),
        last_lines: vec!["a".to_string(), "b".to_string()],
        full_log_path: "/tmp/t.log".to_string(),
        original_size: 10,
        compacted_size: 14,
        compacted_at: 0,
    };
    assert_eq!(c.to_display_string(), "Status: Done\n\n--- Last Output ---\na\nb\n\n[Full log: /tmp/t.log]");
    let empty = CompactedOutput { last_lines: Vec::new(), ..c };
    assert_eq!(empty.to_display_string(), "Status: Done\n[Full log: /tmp/t.log]");
}

#[test]
fn exit_code_after_a_space_is_not_read() {
    let compactor = Compactor::with_defaults();
    let c = compactor.compact("exit code: 3", "l".to_string());
    assert_eq!(c.summary, "Output: 1 lines, 12 bytes");
}
