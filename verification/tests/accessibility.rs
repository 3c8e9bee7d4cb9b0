use agterm::accessibility::{AccessibilityConfig, AccessibilityManager, AnnouncePriority, FocusableElement, KeyboardNavigation, MotionSettings, ScreenReader, ScrollBehavior};
use std::time::Duration;

#[test]
fn test_screen_reader_format_for_speech() {
    let input = "\x1b[31mError:\x1b[0m File not found\n";
    let output = ScreenReader::format_for_speech(input);
    assert_eq!(output, "Error: File not found");
}

#[test]
fn test_screen_reader_announcement_priority() {
    let mut sr = ScreenReader::new();
    sr.set_enabled(true);

    sr.announce("low", AnnouncePriority::Low);
    sr.announce("critical", AnnouncePriority::Critical);
    sr.announce("normal", AnnouncePriority::Normal);

    // Critical should be first
    assert_eq!(sr.next().unwrap().text, "critical");
}

#[test]
fn test_keyboard_navigation_next() {
    let mut nav = KeyboardNavigation::new();
    nav.add_element(FocusableElement::Tab(0));
    nav.add_element(FocusableElement::SearchBar);

    assert_eq!(nav.current(), Some(&FocusableElement::Terminal));
    nav.next();
    assert_eq!(nav.current(), Some(&FocusableElement::Tab(0)));
    nav.next();
    assert_eq!(nav.current(), Some(&FocusableElement::SearchBar));
}

#[test]
fn test_keyboard_navigation_prev() {
    let mut nav = KeyboardNavigation::new();
    nav.add_element(FocusableElement::Tab(0));

    nav.prev(); // Should wrap to last
    assert_eq!(nav.current(), Some(&FocusableElement::Tab(0)));
}

#[test]
fn test_keyboard_navigation_focus_element() {
    let mut nav = KeyboardNavigation::new();
    let search = FocusableElement::SearchBar;
    nav.add_element(search.clone());

    nav.focus_element(search.clone());
    assert_eq!(nav.current(), Some(&search));
}

#[test]
fn test_reduced_motion_settings() {
    let settings = MotionSettings::reduced_motion();
    assert_eq!(settings.animation_duration, Duration::from_millis(0));
    assert!(!settings.transition_enabled);
    assert_eq!(settings.scroll_behavior, ScrollBehavior::Instant);
}

#[test]
fn test_accessibility_manager_creation() {
    let config = AccessibilityConfig::default();
    let manager = AccessibilityManager::new(config);

    assert!(!manager.screen_reader.is_enabled());
    assert!(manager.keyboard_nav.current().is_some());
}

#[test]
fn test_aria_label_generation() {
    assert_eq!(
        AccessibilityManager::get_aria_label(&FocusableElement::Terminal),
        "Terminal window"
    );
    assert_eq!(
        AccessibilityManager::get_aria_label(&FocusableElement::Tab(2)),
        "Tab 3"
    );
    assert_eq!(
        AccessibilityManager::get_aria_label(&FocusableElement::Button("OK".to_string())),
        "OK button"
    );
}

#[test]
fn test_screen_reader_queue_limit() {
    let mut sr = ScreenReader::new();
    sr.set_enabled(true);

    // Add more than 50 announcements
    for i in 0..60 {
        sr.announce(&format!("Message {}", i), AnnouncePriority::Low);
    }

    // Queue should be limited to 50
    let mut count = 0;
    while sr.next().is_some() {
        count += 1;
    }
    assert_eq!(count, 50);
}
