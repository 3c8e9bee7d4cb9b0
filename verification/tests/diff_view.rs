use agterm::diff_view::{diff_strings, DiffLine, DiffLineType, DiffResult, DiffViewMode, DiffViewer, MyersDiff};

#[test]
fn test_diff_line_creation() {
    let unchanged = DiffLine::unchanged("test".to_string(), 1, 1);
    assert_eq!(unchanged.line_type, DiffLineType::Unchanged);
    assert_eq!(unchanged.left_line_num, Some(1));
    assert_eq!(unchanged.right_line_num, Some(1));

    let added = DiffLine::added("new".to_string(), 2);
    assert_eq!(added.line_type, DiffLineType::Added);
    assert_eq!(added.left_line_num, None);
    assert_eq!(added.right_line_num, Some(2));

    let removed = DiffLine::removed("old".to_string(), 3);
    assert_eq!(removed.line_type, DiffLineType::Removed);
    assert_eq!(removed.left_line_num, Some(3));
    assert_eq!(removed.right_line_num, None);

    let modified = DiffLine::modified("old".to_string(), "new".to_string(), 4, 5);
    assert_eq!(modified.line_type, DiffLineType::Modified);
    assert_eq!(modified.left_line_num, Some(4));
    assert_eq!(modified.right_line_num, Some(5));
}

#[test]
fn test_diff_stats() {
    let lines = vec![
        DiffLine::unchanged("line1".to_string(), 1, 1),
        DiffLine::added("line2".to_string(), 2),
        DiffLine::removed("line3".to_string(), 2),
        DiffLine::modified("old".to_string(), "new".to_string(), 3, 3),
    ];

    let result = DiffResult::new(lines);
    assert_eq!(result.stats.unchanged, 1);
    assert_eq!(result.stats.added, 1);
    assert_eq!(result.stats.removed, 1);
    assert_eq!(result.stats.modified, 1);
    assert_eq!(result.stats.total_changes(), 3);
    assert_eq!(result.stats.total_lines(), 4);
}

#[test]
fn test_myers_diff_identical() {
    let old = vec!["line1".to_string(), "line2".to_string(), "line3".to_string()];
    let new = old.clone();

    let diff = MyersDiff::new(old, new);
    let result = diff.compute();

    assert_eq!(result.stats.added, 0);
    assert_eq!(result.stats.removed, 0);
    assert_eq!(result.stats.modified, 0);
    assert_eq!(result.stats.unchanged, 3);
}

#[test]
fn test_myers_diff_all_added() {
    let old = vec![];
    let new = vec!["line1".to_string(), "line2".to_string()];

    let diff = MyersDiff::new(old, new);
    let result = diff.compute();

    assert_eq!(result.stats.added, 2);
    assert_eq!(result.stats.removed, 0);
}

#[test]
fn test_myers_diff_all_removed() {
    let old = vec!["line1".to_string(), "line2".to_string()];
    let new = vec![];

    let diff = MyersDiff::new(old, new);
    let result = diff.compute();

    assert_eq!(result.stats.removed, 2);
    assert_eq!(result.stats.added, 0);
}

#[test]
fn test_myers_diff_mixed_changes() {
    let old = vec![
        "line1".to_string(),
        "line2".to_string(),
        "line3".to_string(),
        "line4".to_string(),
    ];
    let new = vec![
        "line1".to_string(),
        "line2_modified".to_string(),
        "line3".to_string(),
        "line5".to_string(),
    ];

    let diff = MyersDiff::new(old, new);
    let result = diff.compute();

    // line1: unchanged
    // line2 -> line2_modified: modified (delete + insert)
    // line3: unchanged
    // line4 -> line5: modified (delete + insert)

    assert_eq!(result.stats.unchanged, 2);
    assert_eq!(result.stats.modified, 2);
}

#[test]
fn test_myers_diff_complex() {
    let old = vec![
        "a".to_string(),
        "b".to_string(),
        "c".to_string(),
        "d".to_string(),
    ];
    let new = vec![
        "a".to_string(),
        "x".to_string(),
        "c".to_string(),
        "y".to_string(),
    ];

    let diff = MyersDiff::new(old, new);
    let result = diff.compute();

    // a: unchanged
    // b -> x: modified
    // c: unchanged
    // d -> y: modified

    assert_eq!(result.stats.unchanged, 2);
    assert_eq!(result.stats.modified, 2);
}

#[test]
fn test_diff_result_navigation() {
    let lines = vec![
        DiffLine::unchanged("line1".to_string(), 1, 1),
        DiffLine::added("line2".to_string(), 2),
        DiffLine::unchanged("line3".to_string(), 2, 3),
        DiffLine::removed("line4".to_string(), 3),
        DiffLine::unchanged("line5".to_string(), 4, 4),
    ];

    let result = DiffResult::new(lines);
    let changes = result.change_indices();
    assert_eq!(changes, vec![1, 3]);

    assert_eq!(result.next_change(0), Some(1));
    assert_eq!(result.next_change(1), Some(3));
    assert_eq!(result.next_change(3), None);

    assert_eq!(result.prev_change(4), Some(3));
    assert_eq!(result.prev_change(3), Some(1));
    assert_eq!(result.prev_change(1), None);
}

#[test]
fn test_diff_viewer_navigation() {
    let lines = vec![
        DiffLine::unchanged("line1".to_string(), 1, 1),
        DiffLine::added("line2".to_string(), 2),
        DiffLine::unchanged("line3".to_string(), 2, 3),
        DiffLine::removed("line4".to_string(), 3),
    ];

    let result = DiffResult::new(lines);
    let mut viewer = DiffViewer::new(result, 80);

    assert_eq!(viewer.current_line(), 0);

    assert!(viewer.next_change());
    assert_eq!(viewer.current_line(), 1);

    assert!(viewer.next_change());
    assert_eq!(viewer.current_line(), 3);

    assert!(!viewer.next_change());
    assert_eq!(viewer.current_line(), 3);

    assert!(viewer.prev_change());
    assert_eq!(viewer.current_line(), 1);
}

#[test]
fn test_diff_viewer_modes() {
    let lines = vec![
        DiffLine::unchanged("line1".to_string(), 1, 1),
        DiffLine::added("line2".to_string(), 2),
    ];

    let result = DiffResult::new(lines);
    let mut viewer = DiffViewer::new(result, 80);

    // Test side-by-side mode
    viewer.set_mode(DiffViewMode::SideBySide);
    let output = viewer.render();
    assert!(output.contains("Old"));
    assert!(output.contains("New"));
    assert!(output.contains("|"));

    // Test unified mode
    viewer.set_mode(DiffViewMode::Unified);
    let output = viewer.render();
    assert!(output.contains("Unified Diff"));
}

#[test]
fn test_diff_strings_convenience() {
    let old = "line1\nline2\nline3";
    let new = "line1\nline2_modified\nline3";

    let output = diff_strings(old, new, 80);
    assert!(!output.is_empty());
    assert!(output.contains("line1"));
    assert!(output.contains("line2"));
}

#[test]
fn test_empty_diff() {
    let old = vec![];
    let new = vec![];

    let diff = MyersDiff::new(old, new);
    let result = diff.compute();

    assert_eq!(result.stats.total_lines(), 0);
    assert_eq!(result.stats.total_changes(), 0);
}

#[test]
fn test_single_line_diff() {
    let old = vec!["line1".to_string()];
    let new = vec!["line2".to_string()];

    let diff = MyersDiff::new(old, new);
    let result = diff.compute();

    assert_eq!(result.stats.modified, 1);
    assert_eq!(result.lines.len(), 1);
}

#[test]
fn test_viewer_truncation() {
    let lines = vec![
        DiffLine::unchanged("a".repeat(100), 1, 1),
    ];

    let result = DiffResult::new(lines);
    let viewer = DiffViewer::new(result, 40);
    let output = viewer.render();

    // Verify that long lines are truncated
    assert!(output.lines().all(|line| {
        // Remove ANSI codes for length calculation
        let clean = line.replace("\x1b[0m", "")
            .replace("\x1b[1m", "")
            .replace("\x1b[31m", "")
            .replace("\x1b[32m", "")
            .replace("\x1b[33m", "");
        clean.len() <= 100 // Allow some margin for formatting
    }));
}

#[test]
fn test_line_numbers() {
    let old = vec!["a".to_string(), "b".to_string(), "c".to_string()];
    let new = vec!["a".to_string(), "x".to_string(), "c".to_string(), "d".to_string()];

    let diff = MyersDiff::new(old, new);
    let result = diff.compute();

    // Check that line numbers are properly assigned
    for line in &result.lines {
        match line.line_type {
            DiffLineType::Unchanged => {
                assert!(line.left_line_num.is_some());
                assert!(line.right_line_num.is_some());
            }
            DiffLineType::Added => {
                assert!(line.left_line_num.is_none());
                assert!(line.right_line_num.is_some());
            }
            DiffLineType::Removed => {
                assert!(line.left_line_num.is_some());
                assert!(line.right_line_num.is_none());
            }
            DiffLineType::Modified => {
                assert!(line.left_line_num.is_some());
                assert!(line.right_line_num.is_some());
            }
        }
    }
}

fn kinds(r: &DiffResult) -> Vec<DiffLineType> {
    r.lines.iter().map(|l| l.line_type).collect()
}

fn strings(v: &[&str]) -> Vec<String> {
    v.iter().map(|s| s.to_string()).collect()
}

#[test]
fn test_myers_diff_exact_lines() {
    let r = MyersDiff::new(strings(&["a", "b", "c", "d"]), strings(&["a", "x", "c", "y"])).compute();
    assert_eq!(
        kinds(&r),
        vec![DiffLineType::Unchanged, DiffLineType::Modified, DiffLineType::Unchanged, DiffLineType::Modified]
    );
    assert_eq!(r.lines[1].left_content.as_deref(), Some("b"));
    assert_eq!(r.lines[1].right_content.as_deref(), Some("x"));
    assert_eq!(r.lines[3].left_line_num, Some(4));
    assert_eq!(r.lines[3].right_line_num, Some(4));
}

#[test]
fn test_myers_diff_deletions_first() {
    let r = MyersDiff::new(strings(&["a", "b", "c"]), strings(&["x", "y"])).compute();
    assert_eq!(
        kinds(&r),
        vec![DiffLineType::Removed, DiffLineType::Removed, DiffLineType::Modified, DiffLineType::Added]
    );
    assert_eq!(r.lines[2].left_content.as_deref(), Some("c"));
    assert_eq!(r.lines[2].right_content.as_deref(), Some("x"));
}

#[test]
fn test_myers_diff_keeps_longest_common_lines() {
    // the longest common subsequence of these is "a b d" (length 3)
    let r = MyersDiff::new(strings(&["a", "b", "c", "d"]), strings(&["b", "a", "b", "d", "e"])).compute();
    assert_eq!(r.stats.unchanged, 3);
    assert_eq!(r.stats.unchanged + r.stats.removed + r.stats.modified, 4);
    assert_eq!(r.stats.unchanged + r.stats.added + r.stats.modified, 5);
}

#[test]
fn test_render_line_counts() {
    let r = MyersDiff::new(strings(&["a", "b", "c"]), strings(&["a", "x", "c", "d"])).compute();
    let n = r.lines.len();
    let modified = r.stats.modified;
    let mut viewer = DiffViewer::new(r, 80);
    let side = viewer.render();
    assert_eq!(side.matches('\n').count(), n + 4);
    viewer.set_mode(DiffViewMode::Unified);
    let unified = viewer.render();
    assert_eq!(unified.matches('\n').count(), n + modified + 4);
}
