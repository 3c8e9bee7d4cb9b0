use agterm::accessibility::{AnnouncePriority, FocusableElement, KeyboardNavigation, ScreenReader};
use agterm::aliases::{AliasError, AliasManager};
use agterm::annotations::{Annotation, AnnotationManager, AnnotationType, LineRange};
use agterm::bookmarks::{BookmarkError, BookmarkManager};
use agterm::color::indexed_rgb8;
use agterm::completion::CompletionEngine;
use agterm::encoding::{Encoding, EncodingError};
use agterm::memory::estimate_tokens;

#[test]
fn prev_undoes_next_with_wrapping() {
    let mut nav = KeyboardNavigation::new();
    nav.add_element(FocusableElement::SearchBar);
    nav.add_element(FocusableElement::Tab(1));
    nav.next();
    assert_eq!(nav.current(), Some(&FocusableElement::SearchBar));
    nav.prev();
    assert_eq!(nav.current(), Some(&FocusableElement::Terminal));
    nav.prev();
    assert_eq!(nav.current(), Some(&FocusableElement::Tab(1)));
    nav.next();
    assert_eq!(nav.current(), Some(&FocusableElement::Terminal));
}

#[test]
fn critical_announcement_goes_first_and_queue_is_capped() {
    let mut sr = ScreenReader::new();
    sr.announce("ignored while off", AnnouncePriority::Critical);
    assert!(sr.next().is_none());
    sr.set_enabled(true);
    sr.announce("first", AnnouncePriority::Low);
    sr.announce("second", AnnouncePriority::Normal);
    sr.announce("urgent", AnnouncePriority::Critical);
    sr.announce("soon", AnnouncePriority::High);
    let a = sr.next().unwrap();
    assert_eq!(a.text, "urgent");
    assert!(a.interrupt);
    assert_eq!(sr.next().unwrap().text, "soon");
    assert_eq!(sr.next().unwrap().text, "first");
    assert_eq!(sr.next().unwrap().text, "second");
    assert!(sr.next().is_none());
    for i in 0..60 {
        sr.announce(&format!("line {}", i), AnnouncePriority::Low);
    }
    let mut n = 0;
    while let Some(a) = sr.next() {
        if n == 0 {
            assert_eq!(a.text, "line 0");
        }
        n += 1;
    }
    assert_eq!(n, 50);
}

#[test]
fn history_keeps_latest_command_first_once() {
    let mut e = CompletionEngine::new();
    e.add_to_history("  ls  ");
    e.add_to_history("pwd");
    e.add_to_history("ls");
    e.add_to_history("   ");
    assert_eq!(e.get_history(), &vec!["ls".to_string(), "pwd".to_string()]);
}

#[test]
fn bookmark_add_get_remove() {
    let mut m = BookmarkManager::new();
    let a = m.add_bookmark("build", "cargo build", None, vec!["rust".to_string()], None).unwrap();
    let b = m.add_bookmark("test", "cargo test", None, vec![], None).unwrap();
    assert_ne!(a, b);
    assert_eq!(m.get_bookmark(a).unwrap().command, "cargo build");
    assert!(m.remove_bookmark(a).is_ok());
    assert!(m.get_bookmark(a).is_none());
    assert_eq!(m.get_bookmark(b).unwrap().name, "test");
    match m.remove_bookmark(a) {
        Err(BookmarkError::NotFound(id)) => assert_eq!(id, a),
        _ => panic!("removed twice"),
    }
}

#[test]
fn annotation_trim_drops_oldest() {
    let mut m = AnnotationManager::with_max_annotations(2);
    m.add(Annotation::with_identity(1, LineRange::single(1), "a".to_string(), AnnotationType::Note, 10));
    m.add(Annotation::with_identity(2, LineRange::single(2), "b".to_string(), AnnotationType::Note, 20));
    m.add(Annotation::with_identity(3, LineRange::single(3), "c".to_string(), AnnotationType::Note, 30));
    assert_eq!(m.count(), 2);
    assert!(m.get(1).is_none());
    assert!(m.get(2).is_some());
    assert!(m.get(3).is_some());
}

#[test]
fn alias_add_then_get() {
    let mut m = AliasManager::new();
    assert!(m.add_alias("zz", "git status", None).is_ok());
    assert_eq!(m.get_alias("zz").unwrap().command, "git status");
    assert!(matches!(m.add_alias("zz", "ls", None), Err(AliasError::AlreadyExists(n)) if n == "zz"));
    assert!(matches!(m.add_alias("", "ls", None), Err(AliasError::InvalidName(_))));
    assert!(matches!(m.add_alias("q", "", None), Err(AliasError::InvalidCommand(_))));
    assert!(m.remove_alias("zz").is_ok());
    assert!(m.get_alias("zz").is_none());
    assert!(matches!(m.remove_alias("zz"), Err(AliasError::NotFound(n)) if n == "zz"));
}

#[test]
fn encode_then_decode_round_trips() {
    let text = "h\u{e9}llo \u{1d11e} \u{4e16}";
    for enc in [Encoding::Utf8, Encoding::Utf16, Encoding::Utf16Be, Encoding::Utf16Le] {
        let bytes = enc.encode(text).unwrap();
        assert_eq!(enc.decode(&bytes).unwrap(), text);
    }
    let latin = "caf\u{e9} \u{ff}";
    let bytes = Encoding::Latin1.encode(latin).unwrap();
    assert_eq!(bytes, vec![0x63, 0x61, 0x66, 0xe9, 0x20, 0xff]);
    assert_eq!(Encoding::Latin1.decode(&bytes).unwrap(), latin);
    assert_eq!(Encoding::Latin1.encode("\u{4e16}").unwrap(), vec![b'?']);
    assert_eq!(Encoding::Utf8.decode(&[0x61, 0xff, 0x62]).unwrap(), "a\u{fffd}b");
    assert!(matches!(Encoding::EucKr.encode("x"), Err(EncodingError::UnsupportedEncoding(_))));
    assert!(Encoding::Utf16Le.decode(&[0x00, 0xd8]).is_err());
}

#[test]
fn palette_and_token_values() {
    assert_eq!(indexed_rgb8(16), (0, 0, 0));
    assert_eq!(indexed_rgb8(231), (255, 255, 255));
    assert_eq!(indexed_rgb8(196), (255, 0, 0));
    assert_eq!(indexed_rgb8(232), (8, 8, 8));
    assert_eq!(indexed_rgb8(255), (238, 238, 238));
    assert_eq!(estimate_tokens(""), 0);
    assert_eq!(estimate_tokens("hello world"), 2);
}
