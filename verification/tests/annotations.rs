use agterm::annotations::{Annotation, AnnotationManager, AnnotationType, LineRange};

#[test]
fn test_annotation_creation() {
    let note = Annotation::note(10, "Test note".to_string());
    assert_eq!(note.range.start, 10);
    assert_eq!(note.range.end, 10);
    assert_eq!(note.annotation_type, AnnotationType::Note);
    assert_eq!(note.content, "Test note");
}

#[test]
fn test_annotation_types() {
    let note = AnnotationType::Note;
    let warning = AnnotationType::Warning;
    let bookmark = AnnotationType::Bookmark;

    assert_eq!(note.name(), "Note");
    assert_eq!(warning.name(), "Warning");
    assert_eq!(bookmark.name(), "Bookmark");

    assert_eq!(note.symbol(), "📝");
    assert_eq!(warning.symbol(), "⚠️");
    assert_eq!(bookmark.symbol(), "🔖");
}

#[test]
fn test_line_range() {
    let single = LineRange::single(5);
    assert!(single.is_single_line());
    assert_eq!(single.len(), 1);
    assert!(single.contains(5));
    assert!(!single.contains(4));
    assert!(!single.contains(6));

    let range = LineRange::new(10, 15);
    assert!(!range.is_single_line());
    assert_eq!(range.len(), 6);
    assert!(range.contains(10));
    assert!(range.contains(12));
    assert!(range.contains(15));
    assert!(!range.contains(9));
    assert!(!range.contains(16));
}

#[test]
fn test_range_overlap() {
    let range1 = LineRange::new(5, 10);
    let range2 = LineRange::new(8, 12);
    let range3 = LineRange::new(11, 15);

    assert!(range1.overlaps(&range2));
    assert!(range2.overlaps(&range1));
    assert!(!range1.overlaps(&range3));
    assert!(!range3.overlaps(&range1));
    assert!(range2.overlaps(&range3));
}

#[test]
fn test_annotation_tags() {
    let mut annotation = Annotation::note(5, "Test".to_string());

    annotation.add_tag("important".to_string());
    annotation.add_tag("review".to_string());

    assert!(annotation.has_tag("important"));
    assert!(annotation.has_tag("review"));
    assert!(!annotation.has_tag("other"));

    assert_eq!(annotation.tags.len(), 2);

    // Adding duplicate should not increase count
    annotation.add_tag("important".to_string());
    assert_eq!(annotation.tags.len(), 2);

    // Remove tag
    assert!(annotation.remove_tag("important"));
    assert!(!annotation.has_tag("important"));
    assert_eq!(annotation.tags.len(), 1);

    // Remove non-existent tag
    assert!(!annotation.remove_tag("nonexistent"));
}

#[test]
fn test_annotation_color() {
    let mut annotation = Annotation::note(5, "Test".to_string());

    // Should use default color initially
    let default_color = AnnotationType::Note.default_color();
    assert_eq!(annotation.effective_color(), default_color);

    // Set custom color
    let custom_color = [255, 0, 0];
    annotation.set_color(custom_color);
    assert_eq!(annotation.effective_color(), custom_color);
}

#[test]
fn test_manager_add_and_get() {
    let mut manager = AnnotationManager::new();

    let annotation = Annotation::note(10, "Test note".to_string());
    let id = manager.add(annotation);

    assert_eq!(manager.count(), 1);

    let retrieved = manager.get(id);
    assert!(retrieved.is_some());
    assert_eq!(retrieved.unwrap().content, "Test note");
}

#[test]
fn test_manager_get_for_line() {
    let mut manager = AnnotationManager::new();

    manager.add(Annotation::note(10, "Note 1".to_string()));
    manager.add(Annotation::warning(10, "Warning 1".to_string()));
    manager.add(Annotation::bookmark(11, "Bookmark 1".to_string()));

    let line10_annotations = manager.get_for_line(10);
    assert_eq!(line10_annotations.len(), 2);

    let line11_annotations = manager.get_for_line(11);
    assert_eq!(line11_annotations.len(), 1);

    let line12_annotations = manager.get_for_line(12);
    assert_eq!(line12_annotations.len(), 0);
}

#[test]
fn test_manager_multiline_annotation() {
    let mut manager = AnnotationManager::new();

    let annotation = Annotation::new(
        LineRange::new(10, 15),
        "Multi-line note".to_string(),
        AnnotationType::Note,
    );
    manager.add(annotation);

    for line in 10..=15 {
        assert!(manager.has_annotations_at_line(line));
        let annotations = manager.get_for_line(line);
        assert_eq!(annotations.len(), 1);
        assert_eq!(annotations[0].content, "Multi-line note");
    }

    assert!(!manager.has_annotations_at_line(9));
    assert!(!manager.has_annotations_at_line(16));
}

#[test]
fn test_manager_remove() {
    let mut manager = AnnotationManager::new();

    let annotation = Annotation::note(10, "Test".to_string());
    let id = manager.add(annotation);

    assert_eq!(manager.count(), 1);
    assert!(manager.has_annotations_at_line(10));

    let removed = manager.remove(id);
    assert!(removed.is_some());
    assert_eq!(manager.count(), 0);
    assert!(!manager.has_annotations_at_line(10));
}

#[test]
fn test_manager_update() {
    let mut manager = AnnotationManager::new();

    let annotation = Annotation::note(10, "Original".to_string());
    let id = manager.add(annotation);

    assert!(manager.update_content(id, "Updated".to_string()));

    let updated = manager.get(id);
    assert_eq!(updated.unwrap().content, "Updated");
}

#[test]
fn test_manager_search() {
    let mut manager = AnnotationManager::new();

    manager.add(Annotation::note(10, "Git commit".to_string()));
    manager.add(Annotation::note(11, "Git push".to_string()));
    manager.add(Annotation::note(12, "Docker build".to_string()));

    let results = manager.search("git");
    assert_eq!(results.len(), 2);

    let results = manager.search("docker");
    assert_eq!(results.len(), 1);

    let results = manager.search("nonexistent");
    assert_eq!(results.len(), 0);
}

#[test]
fn test_manager_search_case_insensitive() {
    let mut manager = AnnotationManager::new();

    manager.add(Annotation::note(10, "Test Message".to_string()));

    let results = manager.search("test");
    assert_eq!(results.len(), 1);

    let results = manager.search("MESSAGE");
    assert_eq!(results.len(), 1);
}

#[test]
fn test_manager_by_type() {
    let mut manager = AnnotationManager::new();

    manager.add(Annotation::note(10, "Note 1".to_string()));
    manager.add(Annotation::note(11, "Note 2".to_string()));
    manager.add(Annotation::warning(12, "Warning 1".to_string()));
    manager.add(Annotation::bookmark(13, "Bookmark 1".to_string()));

    let notes = manager.get_by_type(AnnotationType::Note);
    assert_eq!(notes.len(), 2);

    let warnings = manager.get_by_type(AnnotationType::Warning);
    assert_eq!(warnings.len(), 1);

    let bookmarks = manager.get_by_type(AnnotationType::Bookmark);
    assert_eq!(bookmarks.len(), 1);
}

#[test]
fn test_bookmark_navigation() {
    let mut manager = AnnotationManager::new();

    manager.add(Annotation::bookmark(10, "Bookmark 1".to_string()));
    manager.add(Annotation::bookmark(20, "Bookmark 2".to_string()));
    manager.add(Annotation::bookmark(30, "Bookmark 3".to_string()));

    let next = manager.next_bookmark(5);
    assert_eq!(next.unwrap().range.start, 10);

    let next = manager.next_bookmark(10);
    assert_eq!(next.unwrap().range.start, 20);

    let next = manager.next_bookmark(30);
    assert!(next.is_none());

    let prev = manager.prev_bookmark(35);
    assert_eq!(prev.unwrap().range.start, 30);

    let prev = manager.prev_bookmark(20);
    assert_eq!(prev.unwrap().range.start, 10);

    let prev = manager.prev_bookmark(10);
    assert!(prev.is_none());
}

#[test]
fn test_manager_clear() {
    let mut manager = AnnotationManager::new();

    manager.add(Annotation::note(10, "Note".to_string()));
    manager.add(Annotation::warning(11, "Warning".to_string()));

    assert_eq!(manager.count(), 2);

    manager.clear();
    assert_eq!(manager.count(), 0);
    assert!(!manager.has_annotations_at_line(10));
    assert!(!manager.has_annotations_at_line(11));
}

#[test]
fn test_manager_clear_by_type() {
    let mut manager = AnnotationManager::new();

    manager.add(Annotation::note(10, "Note 1".to_string()));
    manager.add(Annotation::note(11, "Note 2".to_string()));
    manager.add(Annotation::warning(12, "Warning".to_string()));

    assert_eq!(manager.count(), 3);

    manager.clear_by_type(AnnotationType::Note);
    assert_eq!(manager.count(), 1);
    assert_eq!(manager.count_by_type(AnnotationType::Note), 0);
    assert_eq!(manager.count_by_type(AnnotationType::Warning), 1);
}

#[test]
fn test_manager_stats() {
    let mut manager = AnnotationManager::new();

    manager.add(Annotation::note(10, "Note 1".to_string()));
    manager.add(Annotation::note(11, "Note 2".to_string()));
    manager.add(Annotation::warning(12, "Warning".to_string()));
    manager.add(Annotation::bookmark(13, "Bookmark".to_string()));

    let stats = manager.stats();
    assert_eq!(stats.total, 4);
    assert_eq!(stats.notes, 2);
    assert_eq!(stats.warnings, 1);
    assert_eq!(stats.bookmarks, 1);
}

#[test]
fn test_manager_sorted() {
    let mut manager = AnnotationManager::new();

    manager.add(Annotation::note(30, "Third".to_string()));
    manager.add(Annotation::note(10, "First".to_string()));
    manager.add(Annotation::note(20, "Second".to_string()));

    let sorted = manager.all_sorted();
    assert_eq!(sorted.len(), 3);
    assert_eq!(sorted[0].range.start, 10);
    assert_eq!(sorted[1].range.start, 20);
    assert_eq!(sorted[2].range.start, 30);
}

#[test]
fn test_manager_search_by_tag() {
    let mut manager = AnnotationManager::new();

    let mut annotation1 = Annotation::note(10, "Note 1".to_string());
    annotation1.add_tag("important".to_string());
    manager.add(annotation1);

    let mut annotation2 = Annotation::note(11, "Note 2".to_string());
    annotation2.add_tag("important".to_string());
    annotation2.add_tag("review".to_string());
    manager.add(annotation2);

    let mut annotation3 = Annotation::note(12, "Note 3".to_string());
    annotation3.add_tag("review".to_string());
    manager.add(annotation3);

    let important = manager.search_by_tag("important");
    assert_eq!(important.len(), 2);

    let review = manager.search_by_tag("review");
    assert_eq!(review.len(), 2);

    let other = manager.search_by_tag("other");
    assert_eq!(other.len(), 0);
}
