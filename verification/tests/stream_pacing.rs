use iyon_tui::smoother::{byte_index_after_chars, PendingText};

#[derive(Debug, Clone, Copy, PartialEq, Eq)]
enum SegmentKind {
    Text,
    Thinking,
}

fn kinds_of(chunks: &[(SegmentKind, String)]) -> Vec<SegmentKind> {
    chunks.iter().map(|(kind, _)| *kind).collect()
}

fn concat(chunks: &[(SegmentKind, String)]) -> String {
    chunks.iter().map(|(_, text)| text.as_str()).collect()
}

fn runs_of(chunks: &[(SegmentKind, String)]) -> Vec<SegmentKind> {
    let mut runs = Vec::new();
    for (kind, _) in chunks {
        if runs.last() != Some(kind) {
            runs.push(*kind);
        }
    }
    runs
}

#[test]
fn single_kind_flush_matches_input() {
    let mut smoother = PendingText::new();
    smoother.push(SegmentKind::Text, "hello world");

    let out = smoother.flush().expect("pending");
    assert_eq!(concat(&out), "hello world");
    assert_eq!(kinds_of(&out), vec![SegmentKind::Text]);
}

#[test]
fn kind_sequence_is_preserved_on_flush() {
    let mut smoother = PendingText::new();
    for (kind, text) in [
        (SegmentKind::Thinking, "t1".to_string()),
        (SegmentKind::Text, "a1".to_string()),
        (SegmentKind::Text, "a2".to_string()),
        (SegmentKind::Thinking, "t2".to_string()),
    ] {
        smoother.push(kind, &text);
    }

    let out = smoother.flush().expect("pending");
    assert_eq!(concat(&out), "t1a1a2t2");
    assert_eq!(
        kinds_of(&out),
        vec![SegmentKind::Thinking, SegmentKind::Text, SegmentKind::Text, SegmentKind::Thinking]
    );
}

#[test]
fn drain_then_flush_round_trips_without_loss() {
    let mut smoother = PendingText::new();
    for (kind, text) in [
        (SegmentKind::Thinking, "aaa".to_string()),
        (SegmentKind::Text, "bbb".to_string()),
        (SegmentKind::Thinking, "ccc".to_string()),
    ] {
        smoother.push(kind, &text);
    }

    // The first paced drain of a fresh buffer releases one character.
    let drained = smoother.drain_prefix_chars(1);
    let rest = smoother.flush().unwrap_or_default();
    let all = drained.into_iter().chain(rest).collect::<Vec<_>>();

    assert_eq!(concat(&all), "aaabbbccc");
    assert_eq!(runs_of(&all), vec![SegmentKind::Thinking, SegmentKind::Text, SegmentKind::Thinking,]);
    assert!(all.iter().all(|(_, text)| !text.is_empty()));
}

#[test]
fn clear_empties_pending() {
    let mut smoother = PendingText::new();
    smoother.push(SegmentKind::Text, "abc");
    smoother.clear();
    assert!(!smoother.has_pending());
    assert!(smoother.flush().is_none());
}

#[test]
fn byte_index_after_chars_handles_unicode() {
    let text = "héllo";
    assert_eq!(byte_index_after_chars(text, 3), 4);
    assert_eq!(byte_index_after_chars("abc", 2), 2);
}

#[test]
fn byte_index_after_chars_past_the_end_is_the_length() {
    assert_eq!(byte_index_after_chars("héllo", 0), 0);
    assert_eq!(byte_index_after_chars("héllo", 5), 6);
    assert_eq!(byte_index_after_chars("héllo", 9), 6);
}

#[test]
fn drain_splits_the_crossing_chunk_and_keeps_its_kind() {
    let mut pending = PendingText::new();
    pending.push(SegmentKind::Thinking, "ab");
    pending.push(SegmentKind::Text, "cdé");
    let first = pending.drain_prefix_chars(3);
    assert_eq!(first, vec![(SegmentKind::Thinking, "ab".to_string()), (SegmentKind::Text, "c".to_string())]);
    assert!(pending.has_pending());
    let second = pending.drain_prefix_chars(10);
    assert_eq!(second, vec![(SegmentKind::Text, "dé".to_string())]);
    assert!(!pending.has_pending());
    assert!(pending.flush().is_none());
}

#[test]
fn empty_pushes_and_zero_drains_change_nothing() {
    let mut pending = PendingText::new();
    pending.push(SegmentKind::Text, "");
    assert!(!pending.has_pending());
    pending.push(SegmentKind::Text, "xy");
    assert!(pending.drain_prefix_chars(0).is_empty());
    assert_eq!(pending.flush(), Some(vec![(SegmentKind::Text, "xy".to_string())]));
}
