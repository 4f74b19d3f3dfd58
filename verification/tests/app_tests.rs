use dirbuf::app::{to_u16, App, EditError};
use dirbuf::buffer_storage::{FileType, Listed, State};
use dirbuf::model::{CursorShape, Mode};
use dirbuf::text_buffer::TextBuffer;

fn listed(name: &str) -> Listed {
    Listed { name: name.to_string(), file_type: FileType::File }
}

fn session() -> App {
    let mut app = App::start("/home/u", &vec![listed("foo bar"), listed("b.txt")]);
    app.buffer_content = TextBuffer::from_text("../\nfoo bar\nb.txt");
    app.rerender_dir_content = false;
    app
}

fn text(app: &App) -> String {
    app.buffer_content.to_text()
}

#[test]
fn new_records_the_text_and_keeps_the_directory() {
    let mut app = App::new(
        Mode::Insert,
        "../\na".to_string(),
        "sub",
        "/home/u",
        &vec![listed("a")],
    );
    assert_eq!(app.mode, Mode::Insert);
    assert_eq!(app.cursor_shape, CursorShape::BlinkingBar);
    assert_eq!(text(&app), "../\na");
    assert!(app.buffer_storage.has_view("/home/u/sub"));
    assert_eq!(app.path.get_absolute_path(), "/home/u/sub");
    assert!(app.rerender_dir_content);
    app.delete_at(1, 2);
    assert_eq!(app.get_files(State::Modified).len(), 1);
    app.undo();
    assert_eq!(text(&app), "../\na");
    assert_eq!((app.cursor.x, app.cursor.y), (0, 0));
}

#[test]
fn quit_and_tick() {
    let mut app = session();
    app.tick();
    assert!(app.running);
    app.quit();
    assert!(!app.running);
}

#[test]
fn set_mode_asks_for_the_cursor_shape() {
    let mut app = session();
    for (mode, shape) in [
        (Mode::Insert, CursorShape::BlinkingBar),
        (Mode::Pending, CursorShape::SteadyUnderScore),
        (Mode::Visual, CursorShape::SteadyBlock),
        (Mode::VisualBlock, CursorShape::SteadyBlock),
        (Mode::VisualLine, CursorShape::SteadyBlock),
        (Mode::Command, CursorShape::SteadyBlock),
        (Mode::Normal, CursorShape::SteadyBlock),
    ] {
        app.set_mode(mode);
        assert_eq!(app.mode, mode);
        assert_eq!(app.cursor_shape, shape);
        assert_eq!(mode.cursor_shape(), shape);
    }
}

#[test]
fn insert_at_then_delete_at_restores_the_buffer_and_the_entries() {
    let mut app = session();
    app.insert_at(4, 2, "x");
    assert_eq!(text(&app), "../\nfoox bar\nb.txt");
    assert_eq!(app.get_files(State::Modified)[0].name, "foox bar");
    app.delete_at(4, 2);
    assert_eq!(text(&app), "../\nfoo bar\nb.txt");
    assert!(!app.buffer_storage.has_changes());
}

#[test]
fn insert_at_the_end_of_a_line() {
    let mut app = session();
    app.insert_at(8, 2, "!");
    assert_eq!(text(&app), "../\nfoo bar!\nb.txt");
    app.insert_at(10, 2, "!");
    app.insert_at(1, 4, "!");
    app.insert_at(0, 2, "!");
    assert_eq!(text(&app), "../\nfoo bar!\nb.txt");
    app.insert_after(0, 3, "a");
    app.insert_text(2, 3, "-");
    assert_eq!(text(&app), "../\nfoo bar!\na-b.txt");
}

#[test]
fn delete_range_and_delete_word_rename_the_entry() {
    let mut app = session();
    app.delete_range(1, 2, 4);
    assert_eq!(text(&app), "../\nbar\nb.txt");
    assert_eq!(app.get_files(State::Modified)[0].name, "bar");
    // off a word, one character goes
    app.delete_word(2, 3);
    assert_eq!(text(&app), "../\nbar\nbtxt");
    app.delete_chars(1, 3, 1);
    assert_eq!(text(&app), "../\nbar\ntxt");
    app.delete_word(2, 3);
    assert_eq!(text(&app), "../\nbar\nt");
    app.delete_word(2, 3);
    assert_eq!(text(&app), "../\nbar\nt");
    assert_eq!(app.get_files(State::Modified).len(), 2);
}

#[test]
fn delete_line_and_delete_line_full_leave_the_entries_alone() {
    let mut app = session();
    app.delete_line(2);
    assert_eq!(text(&app), "../\n\nb.txt");
    app.delete_line_full(2);
    assert_eq!(text(&app), "../\nb.txt");
    app.delete_line_full(5);
    app.delete_line_full(1);
    app.delete_line_full(1);
    assert_eq!(text(&app), "");
    assert_eq!(app.get_line_count(), 1);
    assert!(!app.buffer_storage.has_changes());
}

#[test]
fn merge_lines_gives_the_merged_text() {
    let mut app = session();
    assert_eq!(app.merge_lines(2, 3), Ok("../\nfoo barb.txt".to_string()));
    assert_eq!(app.merge_lines(3, 2), Ok("../\nb.txtfoo bar".to_string()));
    assert_eq!(app.merge_lines(2, 2), Ok("../\nfoo bar\nb.txt".to_string()));
    assert_eq!(app.merge_lines(2, 4), Err(EditError::LineOutOfBounds));
    assert_eq!(app.merge_lines(0, 1), Err(EditError::LineOutOfBounds));
    assert_eq!(EditError::LineOutOfBounds.message(), "Line out of bounds");
    assert_eq!(text(&app), "../\nfoo bar\nb.txt");
    app.merge(2, 3);
    assert_eq!(text(&app), "../\nfoo barb.txt");
    assert_eq!(app.get_files(State::Modified)[0].original_name, "foo bar");
}

#[test]
fn line_counts_and_lengths() {
    let app = session();
    assert_eq!(app.get_line_count(), 3);
    assert_eq!(app.get_line_length(2), Ok(7));
    assert_eq!(app.get_line_length(0), Err(EditError::LineOutOfBounds));
    assert_eq!(app.get_line_length(4), Err(EditError::LineOutOfBounds));
    assert_eq!(app.line_length_or_zero(4), 0);
    assert_eq!(app.line_or_empty(3), "b.txt");
    assert_eq!(app.line_or_empty(0), "");
}

#[test]
fn move_max_x_and_move_max_y() {
    let mut app = session();
    app.move_max_y();
    assert_eq!(app.cursor.y, 3);
    app.move_max_x();
    assert_eq!(app.cursor.x, 5);
    app.buffer_content = TextBuffer::from_text("");
    app.cursor.move_to(4, 1);
    app.move_max_x();
    assert_eq!(app.cursor.x, 1);
    app.cursor.move_to(4, 7);
    app.move_max_x();
    assert_eq!(app.cursor.x, 1);
    assert_eq!(to_u16(70000), u16::MAX);
    assert_eq!(to_u16(7), 7);
}

#[test]
fn the_word_scans_of_the_app() {
    let app = session();
    let line = "foo bar".to_string();
    assert_eq!(app.get_end_x(&line, 1, true), 5);
    assert_eq!(app.get_start_x(&line, 5), 1);
    assert_eq!(app.seek_special_character_backward(&line, 6), 5);
    assert_eq!(app.seek_special_character_forward(&line, 6), 8);
    assert_eq!(app.seek_whitespace_forward(&line, 4), 5);
    assert_eq!(app.seek_whitespace_backward(&line, 4), 3);
}

#[test]
fn pop_word_cuts_the_last_word_off() {
    let mut app = session();
    app.pop_word();
    assert_eq!(text(&app), "../\nfoo");
    app.pop_word();
    assert_eq!(text(&app), "");
    app.buffer_content = TextBuffer::from_text("one two  \n ");
    app.pop_word();
    assert_eq!(text(&app), "one");
}

#[test]
fn append_linebreak_adds_an_empty_line() {
    let mut app = session();
    app.append_linebreak();
    assert_eq!(text(&app), "../\nfoo bar\nb.txt\n");
    assert_eq!(app.get_line_count(), 4);
}

#[test]
fn undo_restores_what_was_recorded() {
    let mut app = session();
    let before = app.buffer_content.duplicate();
    app.cursor.move_to(3, 2);
    app.record(&before);
    app.delete_line_full(2);
    app.cursor.move_to(1, 1);
    app.undo();
    assert_eq!(text(&app), "../\nfoo bar\nb.txt");
    assert_eq!((app.cursor.x, app.cursor.y), (3, 2));
    app.undo();
    assert_eq!(text(&app), "../\nfoo bar\nb.txt");
    app.delete_line_full(2);
    app.redo();
    assert_eq!(text(&app), "../\nfoo bar\nb.txt");
    app.delete_line_full(2);
    app.redo();
    assert_eq!(text(&app), "../\nb.txt");
}

#[test]
fn save_asks_only_where_changes_are_pending() {
    let mut app = session();
    app.save();
    assert!(!app.need_confirmation);
    app.delete_at(1, 3);
    app.save();
    assert!(app.need_confirmation);
    assert_eq!(app.get_file_type("/home/u", "foo bar"), FileType::File);
    assert_eq!(app.get_file_type("/home/u", "zzz"), FileType::Unknown);
}

#[test]
fn undo_restores_the_low_bits_of_a_large_cursor() {
    let mut app = session();
    app.undo_stack.push("one\ntwo".to_string(), 65536 + 5, 2 * 65536 + 7);
    app.delete_line_full(2);
    app.undo();
    assert_eq!(text(&app), "one\ntwo");
    assert_eq!((app.cursor.x, app.cursor.y), (5, 7));
}

#[test]
fn deleting_from_a_blank_line_without_an_entry_creates_nothing() {
    let mut app = session();
    app.buffer_content = TextBuffer::from_text("../\n  \nb.txt");
    app.delete_at(1, 2);
    assert_eq!(text(&app), "../\n \nb.txt");
    assert!(!app.buffer_storage.has_changes());
    app.insert_at(1, 2, "x");
    assert_eq!(app.get_files(State::Created)[0].name, "x ");
}
