use agterm::clipboard::{ClipboardEntry, ClipboardHistory, ClipboardType};

#[test]
fn test_content_type_detection() {
    assert_eq!(ClipboardType::detect("https://example.com"), ClipboardType::Url);
    assert_eq!(ClipboardType::detect("http://test.org"), ClipboardType::Url);
    assert_eq!(ClipboardType::detect("user@example.com"), ClipboardType::Email);
    assert_eq!(ClipboardType::detect("/home/user/file.txt"), ClipboardType::Path);
    assert_eq!(ClipboardType::detect("~/documents"), ClipboardType::Path);
    assert_eq!(ClipboardType::detect("C:\\Windows\\System32"), ClipboardType::Path);
    assert_eq!(ClipboardType::detect("fn main() {"), ClipboardType::Code);
    assert_eq!(ClipboardType::detect("function test() {}"), ClipboardType::Code);
    assert_eq!(ClipboardType::detect("plain text"), ClipboardType::Text);
}

#[test]
fn test_add_and_retrieve() {
    let mut history = ClipboardHistory::new(100);

    assert!(history.add("First item".to_string(), Some("terminal-1".to_string())));
    assert!(history.add("Second item".to_string(), Some("terminal-2".to_string())));
    assert!(history.add("Third item".to_string(), None));

    assert_eq!(history.len(), 3);

    let recent = history.recent(3);
    assert_eq!(recent[0].content, "Third item");
    assert_eq!(recent[1].content, "Second item");
    assert_eq!(recent[2].content, "First item");
}

#[test]
fn test_deduplication() {
    let mut history = ClipboardHistory::new(100);

    history.add("duplicate".to_string(), None);
    history.add("unique".to_string(), None);
    history.add("duplicate".to_string(), None);

    assert_eq!(history.len(), 2);
    assert_eq!(history.recent(2)[0].content, "duplicate");
    assert_eq!(history.recent(2)[1].content, "unique");
}

#[test]
fn test_no_deduplication() {
    let mut history = ClipboardHistory::with_config(100, false, 1, 1_000_000);

    history.add("duplicate".to_string(), None);
    history.add("duplicate".to_string(), None);

    assert_eq!(history.len(), 2);
}

#[test]
fn test_length_limits() {
    let mut history = ClipboardHistory::with_config(100, true, 5, 20);

    assert!(!history.add("abc".to_string(), None)); // Too short
    assert!(history.add("valid".to_string(), None)); // Valid
    assert!(!history.add("a".repeat(100), None)); // Too long
    assert!(!history.add("   ".to_string(), None)); // Whitespace only

    assert_eq!(history.len(), 1);
}

#[test]
fn test_max_size() {
    let mut history = ClipboardHistory::new(3);

    history.add("item1".to_string(), None);
    history.add("item2".to_string(), None);
    history.add("item3".to_string(), None);
    history.add("item4".to_string(), None);

    assert_eq!(history.len(), 3);
    let all = history.all();
    assert_eq!(all[0].content, "item2");
    assert_eq!(all[1].content, "item3");
    assert_eq!(all[2].content, "item4");
}

#[test]
fn test_pin_functionality() {
    let mut history = ClipboardHistory::new(100);

    history.add("unpinned1".to_string(), None);
    history.add("to_pin".to_string(), None);
    history.add("unpinned2".to_string(), None);

    assert!(history.pin(1, Some("Important".to_string())));

    let pinned = history.pinned();
    assert_eq!(pinned.len(), 1);
    assert_eq!(pinned[0].content, "to_pin");
    assert_eq!(pinned[0].label, Some("Important".to_string()));

    assert!(history.unpin(1));
    assert_eq!(history.pinned().len(), 0);
}

#[test]
fn test_pin_survives_trimming() {
    let mut history = ClipboardHistory::new(2);

    history.add("item1".to_string(), None);
    history.add("item2".to_string(), None);
    history.pin(0, Some("Keep".to_string())); // Pin first item

    history.add("item3".to_string(), None);
    history.add("item4".to_string(), None);

    // Should have: item1(pinned), item3, item4
    assert_eq!(history.len(), 3);
    assert_eq!(history.pinned_count(), 1);

    let all = history.all();
    assert_eq!(all[0].content, "item1");
    assert!(all[0].pinned);
}

#[test]
fn test_toggle_pin() {
    let mut history = ClipboardHistory::new(100);

    history.add("item".to_string(), None);

    assert!(!history.get(0).unwrap().pinned);
    history.toggle_pin(0, Some("Label".to_string()));
    assert!(history.get(0).unwrap().pinned);
    history.toggle_pin(0, None);
    assert!(!history.get(0).unwrap().pinned);
}

#[test]
fn test_search() {
    let mut history = ClipboardHistory::new(100);

    history.add("git status".to_string(), None);
    history.add("git commit -m 'test'".to_string(), None);
    history.add("ls -la".to_string(), None);
    history.add("git push".to_string(), None);

    let results = history.search("git");
    assert_eq!(results.len(), 3);

    let results = history.search("commit");
    assert_eq!(results.len(), 1);
    assert_eq!(results[0].content, "git commit -m 'test'");

    let results = history.search("nonexistent");
    assert_eq!(results.len(), 0);
}

#[test]
fn test_search_by_label() {
    let mut history = ClipboardHistory::new(100);

    history.add("content1".to_string(), None);
    history.add("content2".to_string(), None);
    history.pin(0, Some("important".to_string()));

    let results = history.search("important");
    assert_eq!(results.len(), 1);
    assert_eq!(results[0].content, "content1");
}

#[test]
fn test_filter_by_type() {
    let mut history = ClipboardHistory::new(100);

    history.add("https://example.com".to_string(), None);
    history.add("plain text".to_string(), None);
    history.add("http://test.org".to_string(), None);
    history.add("/home/user/file".to_string(), None);

    let urls = history.filter_by_type(ClipboardType::Url);
    assert_eq!(urls.len(), 2);

    let paths = history.filter_by_type(ClipboardType::Path);
    assert_eq!(paths.len(), 1);

    let text = history.filter_by_type(ClipboardType::Text);
    assert_eq!(text.len(), 1);
}

#[test]
fn test_entry_preview() {
    let entry = ClipboardEntry::new("Short text".to_string(), None);
    assert_eq!(entry.preview(20), "Short text");

    let long = "This is a very long text that should be truncated";
    let entry = ClipboardEntry::new(long.to_string(), None);
    assert_eq!(entry.preview(20), "This is a very long ...");

    let multiline = "First line\nSecond line\nThird line";
    let entry = ClipboardEntry::new(multiline.to_string(), None);
    assert_eq!(entry.preview(50), "First line");
}

#[test]
fn test_clear_operations() {
    let mut history = ClipboardHistory::new(100);

    history.add("item1".to_string(), None);
    history.add("item2".to_string(), None);
    history.add("item3".to_string(), None);
    history.pin(1, Some("Keep".to_string()));

    history.clear_unpinned();
    assert_eq!(history.len(), 1);
    assert_eq!(history.get(0).unwrap().content, "item2");

    history.clear();
    assert!(history.is_empty());
}

#[test]
fn test_remove_entry() {
    let mut history = ClipboardHistory::new(100);

    history.add("item1".to_string(), None);
    history.add("item2".to_string(), None);
    history.add("item3".to_string(), None);

    let removed = history.remove(1);
    assert_eq!(removed.unwrap().content, "item2");
    assert_eq!(history.len(), 2);

    let none = history.remove(10);
    assert!(none.is_none());
}

#[test]
fn clipboard_get_mut_edits_in_place() {
    let mut h = ClipboardHistory::new(10);
    assert!(h.add_at("some text".to_string(), None, 1));
    h.get_mut(0).unwrap().label = Some("mine".to_string());
    assert_eq!(h.get(0).unwrap().label, Some("mine".to_string()));
    assert!(h.get_mut(5).is_none());
}
