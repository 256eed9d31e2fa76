use iyon_tui::paste::ComposerPasteStore;

#[test]
fn large_paste_markers_expand_and_reset() {
    let original = "x".repeat(1001);
    let mut store = ComposerPasteStore::default();
    let marker = store.display_text("", &original);
    assert!(marker.starts_with("[Pasted Content 1001 chars]"));
    assert_eq!(store.expand(marker), original);
    assert_eq!(store.expand("plain".to_string()), "plain");
}

#[test]
fn colliding_large_paste_markers_are_unique() {
    let original = "x".repeat(1001);
    let mut store = ComposerPasteStore::default();
    let first = store.display_text("", &original);
    let second = store.display_text(&first, &original);
    assert_ne!(first, second);
    assert_eq!(store.expand(format!("{first} {second}")), format!("{original} {original}"));
}

#[test]
fn small_paste_is_shown_inline_with_normalized_line_endings() {
    let mut store = ComposerPasteStore::new();
    assert_eq!(store.display_text("", "a\r\nb\rc\td"), "a\nb\nc    d");
}

#[test]
fn paste_with_many_lines_gets_a_line_marker() {
    let mut store = ComposerPasteStore::new();
    let text = "line\n".repeat(11);
    let marker = store.display_text("", &text);
    assert_eq!(marker, "[Pasted Content 55 chars]");
    assert_eq!(store.expand(marker), text);
}

#[test]
fn expanding_resets_the_store() {
    let original = "y".repeat(1200);
    let mut store = ComposerPasteStore::new();
    let marker = store.display_text("", &original);
    assert_eq!(store.expand(marker.clone()), original);
    // The entries were consumed: the marker text now stays as typed.
    assert_eq!(store.expand(marker.clone()), marker);
}

#[test]
fn clear_forgets_pending_pastes() {
    let original = "z".repeat(1001);
    let mut store = ComposerPasteStore::new();
    let marker = store.display_text("", &original);
    store.clear();
    assert_eq!(store.expand(marker.clone()), marker);
}

#[test]
fn text_without_a_marker_is_unchanged() {
    let mut store = ComposerPasteStore::new();
    let _ = store.display_text("", &"q".repeat(2000));
    assert_eq!(store.expand("hello".to_string()), "hello");
}
