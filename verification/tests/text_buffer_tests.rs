use dirbuf::text_buffer::TextBuffer;

#[test]
fn deleting_the_only_line_leaves_one_empty_line() {
    let mut buffer = TextBuffer::from_text("only");
    buffer.delete_line_full(1);
    assert_eq!(buffer.line_count(), 1);
    assert_eq!(buffer.to_text(), "");
}

#[test]
fn a_new_buffer_holds_one_empty_line() {
    let buffer = TextBuffer::new();
    assert_eq!(buffer.line_count(), 1);
    assert_eq!(buffer.line(1), Some(String::new()));
    assert_eq!(buffer.line(0), None);
    assert_eq!(buffer.line(2), None);
}

#[test]
fn insert_then_delete_at_restores_the_line() {
    let text = "../\nfoo bar\nbaz";
    for (row, line) in text.split('\n').enumerate() {
        for col in 1..=line.chars().count() + 1 {
            let mut buffer = TextBuffer::from_text(text);
            buffer.insert(col, row + 1, "x");
            assert_ne!(buffer.to_text(), text);
            buffer.delete_at(col, row + 1);
            assert_eq!(buffer.to_text(), text);
        }
    }
}

#[test]
fn insert_then_delete_range_restores_the_line() {
    let mut buffer = TextBuffer::from_text("ab\ncd");
    buffer.insert(2, 2, "xyz");
    assert_eq!(buffer.to_text(), "ab\ncxyzd");
    buffer.delete_range(2, 2, 3);
    assert_eq!(buffer.to_text(), "ab\ncd");
}

#[test]
fn insert_outside_the_buffer_changes_nothing() {
    let mut buffer = TextBuffer::from_text("ab\ncd");
    buffer.insert(4, 1, "x");
    buffer.insert(0, 1, "x");
    buffer.insert(1, 0, "x");
    buffer.insert(1, 3, "x");
    assert_eq!(buffer.to_text(), "ab\ncd");
    buffer.insert(3, 1, "x");
    assert_eq!(buffer.to_text(), "abx\ncd");
}

#[test]
fn insert_with_line_feeds_starts_new_lines() {
    let mut buffer = TextBuffer::from_text("ab\ncd");
    buffer.insert(2, 1, "1\n2\n3");
    assert_eq!(buffer.line_count(), 4);
    assert_eq!(buffer.to_text(), "a1\n2\n3b\ncd");
    assert_eq!(buffer.line(3), Some("3b".to_string()));
}

#[test]
fn insert_after_counts_from_zero() {
    let mut buffer = TextBuffer::from_text("ab");
    buffer.insert_after(2, 1, "c");
    buffer.insert_after(0, 1, "_");
    buffer.insert_after(9, 1, "!");
    assert_eq!(buffer.to_text(), "_abc");
}

#[test]
fn delete_at_past_the_line_changes_nothing() {
    let mut buffer = TextBuffer::from_text("ab");
    buffer.delete_at(3, 1);
    buffer.delete_at(0, 1);
    buffer.delete_at(1, 2);
    assert_eq!(buffer.to_text(), "ab");
    buffer.delete_at(2, 1);
    assert_eq!(buffer.to_text(), "a");
}

#[test]
fn delete_range_stops_at_the_end_of_the_line() {
    let mut buffer = TextBuffer::from_text("abcdef\nx");
    buffer.delete_range(3, 1, 2);
    assert_eq!(buffer.to_text(), "abef\nx");
    buffer.delete_range(2, 1, 100);
    assert_eq!(buffer.to_text(), "a\nx");
    buffer.delete_range(1, 1, 0);
    assert_eq!(buffer.to_text(), "a\nx");
}

#[test]
fn delete_line_empties_and_keeps_the_line() {
    let mut buffer = TextBuffer::from_text("a\nb\nc");
    buffer.delete_line(2);
    assert_eq!(buffer.to_text(), "a\n\nc");
    assert_eq!(buffer.line_count(), 3);
    buffer.delete_line(4);
    assert_eq!(buffer.to_text(), "a\n\nc");
}

#[test]
fn delete_line_full_removes_the_line() {
    let mut buffer = TextBuffer::from_text("a\nb\nc");
    buffer.delete_line_full(2);
    assert_eq!(buffer.to_text(), "a\nc");
    buffer.delete_line_full(3);
    buffer.delete_line_full(0);
    assert_eq!(buffer.to_text(), "a\nc");
    buffer.delete_line_full(1);
    buffer.delete_line_full(1);
    assert_eq!(buffer.line_count(), 1);
    assert_eq!(buffer.to_text(), "");
}

#[test]
fn merge_lines_joins_two_lines_and_keeps_the_others() {
    let mut buffer = TextBuffer::from_text("a\nb\nb\nc");
    assert!(buffer.merge_lines(2, 3));
    assert_eq!(buffer.to_text(), "a\nbb\nc");
    assert!(buffer.merge_lines(3, 1));
    assert_eq!(buffer.to_text(), "bb\nca");
    assert!(buffer.merge_lines(1, 1));
    assert_eq!(buffer.to_text(), "bb\nca");
    assert!(!buffer.merge_lines(1, 3));
    assert!(!buffer.merge_lines(0, 1));
    assert_eq!(buffer.to_text(), "bb\nca");
}

#[test]
fn delete_word_takes_the_rest_of_the_word() {
    let mut buffer = TextBuffer::from_text("foo bar");
    buffer.delete_word(2, 1);
    assert_eq!(buffer.to_text(), "f bar");
    buffer.delete_word(2, 1);
    assert_eq!(buffer.to_text(), "fbar");
    buffer.delete_word(1, 1);
    assert_eq!(buffer.to_text(), "");
    buffer.delete_word(1, 1);
    assert_eq!(buffer.to_text(), "");
}

#[test]
fn line_length_counts_characters() {
    let buffer = TextBuffer::from_text("äöü\n");
    assert_eq!(buffer.line_length(1), Some(3));
    assert_eq!(buffer.line_length(2), Some(0));
    assert_eq!(buffer.line_length(3), None);
    assert_eq!(buffer.line_length(0), None);
}

#[test]
fn duplicate_and_same_text() {
    let buffer = TextBuffer::from_text("a\nb");
    let mut copy = buffer.duplicate();
    assert!(buffer.same_text(&copy));
    copy.delete_at(1, 1);
    assert!(!buffer.same_text(&copy));
    assert_eq!(buffer.to_text(), "a\nb");
}
