use agterm::bookmarks::{Bookmark, BookmarkManager, BookmarkUpdate};

#[test]
fn test_bookmark_creation() {
    let bookmark = Bookmark::new(
        "Test Bookmark",
        "ls -la",
        Some("/home".to_string()),
        vec!["test".to_string()],
    );

    assert_eq!(bookmark.name, "Test Bookmark");
    assert_eq!(bookmark.command, "ls -la");
    assert_eq!(bookmark.working_dir, Some("/home".to_string()));
    assert_eq!(bookmark.tags, vec!["test"]);
    assert_eq!(bookmark.use_count, 0);
    assert!(bookmark.last_used.is_none());
    assert!(bookmark.description.is_none());
}

#[test]
fn test_bookmark_with_description() {
    let bookmark = Bookmark::new("Test", "echo hello", None, vec![])
        .with_description("A test bookmark");

    assert_eq!(bookmark.description, Some("A test bookmark".to_string()));
}

#[test]
fn test_bookmark_record_use() {
    let mut bookmark = Bookmark::new("Test", "echo hello", None, vec![]);
    assert_eq!(bookmark.use_count, 0);
    assert!(bookmark.last_used.is_none());

    bookmark.record_use();
    assert_eq!(bookmark.use_count, 1);
    assert!(bookmark.last_used.is_some());

    bookmark.record_use();
    assert_eq!(bookmark.use_count, 2);
}

#[test]
fn test_bookmark_matches_query() {
    let bookmark = Bookmark::new(
        "Git Status",
        "git status",
        None,
        vec!["git".to_string()],
    )
    .with_description("Check repository status");

    assert!(bookmark.matches_query("git"));
    assert!(bookmark.matches_query("status"));
    assert!(bookmark.matches_query("repository"));
    assert!(bookmark.matches_query("Git")); // case insensitive
    assert!(!bookmark.matches_query("docker"));
}

#[test]
fn test_bookmark_manager_add() {
    let mut manager = BookmarkManager::new();

    let id = manager
        .add_bookmark(
            "Test",
            "echo test",
            None,
            vec!["test".to_string()],
            Some("description"),
        )
        .unwrap();

    assert_eq!(manager.len(), 1);
    assert!(manager.get_bookmark(id).is_some());
}

#[test]
fn test_bookmark_manager_remove() {
    let mut manager = BookmarkManager::new();

    let id = manager
        .add_bookmark("Test", "echo test", None, vec![], None)
        .unwrap();

    assert_eq!(manager.len(), 1);

    let removed = manager.remove_bookmark(id).unwrap();
    assert_eq!(removed.name, "Test");
    assert_eq!(manager.len(), 0);
}

#[test]
fn test_bookmark_manager_remove_not_found() {
    let mut manager = BookmarkManager::new();
    let result = manager.remove_bookmark(uuid::Uuid::new_v4().as_u128());
    assert!(result.is_err());
}

#[test]
fn test_bookmark_manager_update() {
    let mut manager = BookmarkManager::new();

    let id = manager
        .add_bookmark("Old Name", "old command", None, vec![], None)
        .unwrap();

    let update = BookmarkUpdate::new()
        .name("New Name")
        .command("new command")
        .description(Some("New description".to_string()));

    manager.update_bookmark(id, update).unwrap();

    let bookmark = manager.get_bookmark(id).unwrap();
    assert_eq!(bookmark.name, "New Name");
    assert_eq!(bookmark.command, "new command");
    assert_eq!(bookmark.description, Some("New description".to_string()));
}

#[test]
fn test_bookmark_manager_list() {
    let mut manager = BookmarkManager::new();

    manager
        .add_bookmark("Zebra", "echo zebra", None, vec![], None)
        .unwrap();
    manager
        .add_bookmark("Apple", "echo apple", None, vec![], None)
        .unwrap();
    manager
        .add_bookmark("Mango", "echo mango", None, vec![], None)
        .unwrap();

    let bookmarks = manager.list_bookmarks();
    assert_eq!(bookmarks.len(), 3);
    // Should be sorted by name
    assert_eq!(bookmarks[0].name, "Apple");
    assert_eq!(bookmarks[1].name, "Mango");
    assert_eq!(bookmarks[2].name, "Zebra");
}

#[test]
fn test_bookmark_manager_search() {
    let mut manager = BookmarkManager::new();

    manager
        .add_bookmark("Git Status", "git status", None, vec![], None)
        .unwrap();
    manager
        .add_bookmark("Git Commit", "git commit", None, vec![], None)
        .unwrap();
    manager
        .add_bookmark("Docker PS", "docker ps", None, vec![], None)
        .unwrap();

    let results = manager.search_bookmarks("git");
    assert_eq!(results.len(), 2);

    let results = manager.search_bookmarks("docker");
    assert_eq!(results.len(), 1);

    let results = manager.search_bookmarks("nonexistent");
    assert_eq!(results.len(), 0);
}

#[test]
fn test_bookmark_manager_get_by_tag() {
    let mut manager = BookmarkManager::new();

    manager
        .add_bookmark(
            "Git Status",
            "git status",
            None,
            vec!["git".to_string()],
            None,
        )
        .unwrap();
    manager
        .add_bookmark(
            "Git Log",
            "git log",
            None,
            vec!["git".to_string()],
            None,
        )
        .unwrap();
    manager
        .add_bookmark(
            "Docker PS",
            "docker ps",
            None,
            vec!["docker".to_string()],
            None,
        )
        .unwrap();

    let git_bookmarks = manager.get_by_tag("git");
    assert_eq!(git_bookmarks.len(), 2);

    let docker_bookmarks = manager.get_by_tag("docker");
    assert_eq!(docker_bookmarks.len(), 1);

    // Case insensitive
    let git_bookmarks_upper = manager.get_by_tag("GIT");
    assert_eq!(git_bookmarks_upper.len(), 2);
}

#[test]
fn test_bookmark_manager_get_all_tags() {
    let mut manager = BookmarkManager::new();

    manager
        .add_bookmark(
            "Test1",
            "cmd1",
            None,
            vec!["git".to_string(), "dev".to_string()],
            None,
        )
        .unwrap();
    manager
        .add_bookmark(
            "Test2",
            "cmd2",
            None,
            vec!["docker".to_string()],
            None,
        )
        .unwrap();

    let tags = manager.get_all_tags();
    assert_eq!(tags.len(), 3);
    assert!(tags.contains(&"git".to_string()));
    assert!(tags.contains(&"dev".to_string()));
    assert!(tags.contains(&"docker".to_string()));
}

#[test]
fn test_bookmark_manager_get_most_used() {
    let mut manager = BookmarkManager::new();

    let id1 = manager
        .add_bookmark("Low", "cmd1", None, vec![], None)
        .unwrap();
    let id2 = manager
        .add_bookmark("High", "cmd2", None, vec![], None)
        .unwrap();
    let id3 = manager
        .add_bookmark("Medium", "cmd3", None, vec![], None)
        .unwrap();

    // Use them different amounts
    manager.record_use(id1).unwrap();
    manager.record_use(id2).unwrap();
    manager.record_use(id2).unwrap();
    manager.record_use(id2).unwrap();
    manager.record_use(id3).unwrap();
    manager.record_use(id3).unwrap();

    let most_used = manager.get_most_used(3);
    assert_eq!(most_used.len(), 3);
    assert_eq!(most_used[0].name, "High"); // 3 uses
    assert_eq!(most_used[1].name, "Medium"); // 2 uses
    assert_eq!(most_used[2].name, "Low"); // 1 use
}

#[test]
fn test_bookmark_manager_record_use() {
    let mut manager = BookmarkManager::new();

    let id = manager
        .add_bookmark("Test", "echo test", None, vec![], None)
        .unwrap();

    let bookmark = manager.get_bookmark(id).unwrap();
    assert_eq!(bookmark.use_count, 0);

    manager.record_use(id).unwrap();

    let bookmark = manager.get_bookmark(id).unwrap();
    assert_eq!(bookmark.use_count, 1);
    assert!(bookmark.last_used.is_some());
}

#[test]
fn test_bookmark_manager_clear() {
    let mut manager = BookmarkManager::new();

    manager
        .add_bookmark("Test1", "cmd1", None, vec![], None)
        .unwrap();
    manager
        .add_bookmark("Test2", "cmd2", None, vec![], None)
        .unwrap();

    assert_eq!(manager.len(), 2);

    manager.clear();
    assert_eq!(manager.len(), 0);
    assert!(manager.is_empty());
}

#[test]
fn test_default_bookmarks() {
    let manager = BookmarkManager::with_defaults();

    assert!(!manager.is_empty());

    // Check for some expected bookmarks
    let git_bookmarks = manager.get_by_tag("git");
    assert!(!git_bookmarks.is_empty());

    let docker_bookmarks = manager.get_by_tag("docker");
    assert!(!docker_bookmarks.is_empty());

    let rust_bookmarks = manager.get_by_tag("rust");
    assert!(!rust_bookmarks.is_empty());

    // Test search functionality
    let git_status = manager.search_bookmarks("Git Status");
    assert!(!git_status.is_empty());
}

#[test]
fn test_bookmark_update_tags() {
    let mut manager = BookmarkManager::new();

    let id = manager
        .add_bookmark(
            "Test",
            "echo test",
            None,
            vec!["old".to_string()],
            None,
        )
        .unwrap();

    // Verify old tag works
    let old_results = manager.get_by_tag("old");
    assert_eq!(old_results.len(), 1);

    // Update tags
    let update = BookmarkUpdate::new().tags(vec!["new".to_string()]);
    manager.update_bookmark(id, update).unwrap();

    // Verify old tag no longer works
    let old_results = manager.get_by_tag("old");
    assert_eq!(old_results.len(), 0);

    // Verify new tag works
    let new_results = manager.get_by_tag("new");
    assert_eq!(new_results.len(), 1);
}

#[test]
fn test_all_tags_forget_removed_bookmarks() {
    let mut manager = BookmarkManager::new();
    let id = manager
        .add_bookmark("T", "cmd", None, vec!["Git".to_string()], None)
        .unwrap();
    manager
        .add_bookmark("U", "cmd2", None, vec!["docker".to_string(), "git".to_string()], None)
        .unwrap();
    assert_eq!(manager.get_all_tags(), vec!["docker".to_string(), "git".to_string()]);
    manager.remove_bookmark(id).unwrap();
    assert_eq!(manager.get_all_tags(), vec!["docker".to_string(), "git".to_string()]);

    let mut single = BookmarkManager::new();
    let only = single
        .add_bookmark("T", "cmd", None, vec!["git".to_string()], None)
        .unwrap();
    single.remove_bookmark(only).unwrap();
    assert!(single.get_all_tags().is_empty());
}
