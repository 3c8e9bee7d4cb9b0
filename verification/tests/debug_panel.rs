use agterm::debug::panel::format_bytes;

#[test]
fn test_format_bytes() {
    assert_eq!(format_bytes(100), "100B");
    assert_eq!(format_bytes(1024), "1.0KB");
    assert_eq!(format_bytes(1536), "1.5KB");
    assert_eq!(format_bytes(1024 * 1024), "1.0MB");
}

#[test]
fn test_format_bytes_ties_and_large_counts() {
    assert_eq!(format_bytes(1280), "1.2KB");
    assert_eq!(format_bytes(1792), "1.8KB");
    assert_eq!(format_bytes(1331), "1.3KB");
    assert_eq!(format_bytes(1023), "1023B");
    assert_eq!(format_bytes(5 * 1024 * 1024 / 4), "1.2MB");
    assert_eq!(format_bytes(usize::MAX), format!("{:.1}MB", usize::MAX as f64 / (1024.0 * 1024.0)));
    assert_eq!(format_bytes(1280), format!("{:.1}KB", 1280f64 / 1024.0));
}
