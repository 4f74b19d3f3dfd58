use dirbuf::app::App;
use dirbuf::buffer_storage::{FileEntry, FileType, Listed, State};
use dirbuf::handler::{handle_key_events, Action, KeyEvent};
use dirbuf::model::{CursorShape, KeyCode, Mode};
use dirbuf::reconcile::FsOperation;
use dirbuf::yank_buffer::YankType;

fn listed(name: &str, file_type: FileType) -> Listed {
    Listed { name: name.to_string(), file_type }
}

/// A session in `/home/u` that shows the files `a.txt` and `b.txt`.
fn session() -> App {
    let mut app = App::start(
        "/home/u",
        &vec![listed("a.txt", FileType::File), listed("b.txt", FileType::File)],
    );
    app.refresh_buffer(&vec!["./b.txt".to_string(), "./a.txt".to_string()]);
    app
}

/// A session in `/home/u` that shows `lines`, each a file.
fn session_with(lines: &[&str]) -> App {
    let listing: Vec<Listed> = lines.iter().map(|l| listed(l, FileType::File)).collect();
    let mut app = App::start("/home/u", &listing);
    let paths: Vec<String> = lines.iter().map(|l| l.to_string()).collect();
    app.refresh_buffer(&paths);
    app
}

fn key(c: char) -> KeyEvent {
    let text = if c == ' ' { "Space".to_string() } else { c.to_string() };
    KeyEvent::new(KeyCode::Char(c), text)
}

fn named(code: KeyCode) -> KeyEvent {
    let text = match code {
        KeyCode::Backspace => "Backspace",
        KeyCode::Enter => "Enter",
        KeyCode::Left => "Left",
        KeyCode::Right => "Right",
        KeyCode::Up => "Up",
        KeyCode::Down => "Down",
        KeyCode::Esc => "Esc",
        _ => "Tab",
    };
    KeyEvent::new(code, text.to_string())
}

fn press(app: &mut App, keys: &str) {
    for c in keys.chars() {
        let action = handle_key_events(key(c), app);
        assert!(matches!(action, Action::Nothing));
    }
}

fn press_named(app: &mut App, code: KeyCode) -> Action {
    handle_key_events(named(code), app)
}

fn text(app: &App) -> String {
    app.buffer_content.to_text()
}

fn at(app: &App) -> (u16, u16) {
    (app.cursor.x, app.cursor.y)
}

fn names(files: &[FileEntry]) -> Vec<String> {
    files.iter().map(|f| f.name.clone()).collect()
}

fn confirm(app: &mut App) -> Vec<FsOperation> {
    match handle_key_events(key('y'), app) {
        Action::Reconcile(operations) => operations,
        _ => panic!("no operations"),
    }
}

#[test]
fn a_session_starts_in_normal_mode() {
    let app = session();
    assert!(app.running);
    assert_eq!(app.mode, Mode::Normal);
    assert_eq!(app.cursor_shape, CursorShape::SteadyBlock);
    assert_eq!(text(&app), "../\na.txt\nb.txt");
    assert_eq!(at(&app), (1, 1));
    assert!(!app.need_confirmation);
    assert!(!app.rerender_dir_content);
    assert!(app.command_buffer.is_empty());
}

#[test]
fn renaming_a_line_renames_the_file() {
    let mut app = session();
    press(&mut app, "jxic");
    assert_eq!(text(&app), "../\nc.txt\nb.txt");
    let modified = app.get_files(State::Modified);
    assert_eq!(modified.len(), 1);
    assert_eq!(modified[0].original_name, "a.txt");
    assert_eq!(modified[0].name, "c.txt");
    press_named(&mut app, KeyCode::Esc);
    press(&mut app, ":w");
    press_named(&mut app, KeyCode::Enter);
    assert!(app.need_confirmation);
    let operations = confirm(&mut app);
    assert_eq!(
        operations,
        vec![FsOperation::Rename("a.txt".to_string(), "c.txt".to_string())]
    );
    assert!(!app.need_confirmation);
    assert!(app.get_files(State::Modified).is_empty());
    assert_eq!(names(&app.get_files(State::Unmodified)), vec!["c.txt", "b.txt"]);
    assert!(!app.buffer_storage.has_changes());
}

#[test]
fn a_new_line_creates_a_file() {
    let mut app = session();
    press(&mut app, "Go");
    assert_eq!(app.mode, Mode::Insert);
    assert_eq!(at(&app), (1, 4));
    press(&mut app, "new.txt");
    assert_eq!(text(&app), "../\na.txt\nb.txt\nnew.txt");
    assert_eq!(names(&app.get_files(State::Created)), vec!["new.txt"]);
    press_named(&mut app, KeyCode::Esc);
    press(&mut app, ":w");
    press_named(&mut app, KeyCode::Enter);
    assert_eq!(confirm(&mut app), vec![FsOperation::CreateFile("new.txt".to_string())]);
    assert!(app.get_files(State::Created).is_empty());
}

#[test]
fn a_new_line_that_ends_in_a_slash_creates_a_directory() {
    let mut app = session();
    press(&mut app, "Gonewdir/");
    press_named(&mut app, KeyCode::Esc);
    press(&mut app, ":w");
    press_named(&mut app, KeyCode::Enter);
    assert_eq!(confirm(&mut app), vec![FsOperation::CreateDirectory("newdir/".to_string())]);
}

#[test]
fn d_then_d_deletes_the_line() {
    let mut app = session();
    press(&mut app, "jd");
    assert_eq!(app.mode, Mode::Pending);
    assert_eq!(app.cursor_shape, CursorShape::SteadyUnderScore);
    assert_eq!(app.command_buffer.buffer(), "d");
    press(&mut app, "d");
    assert_eq!(app.mode, Mode::Normal);
    assert!(app.command_buffer.is_empty());
    assert_eq!(text(&app), "../\nb.txt");
    assert_eq!(app.yank_buffer.content, "a.txt");
    assert_eq!(app.yank_buffer.yank_type, YankType::Line);
    assert_eq!(names(&app.get_files(State::Deleted)), vec!["a.txt"]);
    assert_eq!(at(&app), (1, 2));
}

#[test]
fn three_keys_that_are_no_command_do_nothing() {
    let mut app = session();
    press(&mut app, "jdxz");
    assert!(app.command_buffer.is_empty());
    assert_eq!(text(&app), "../\na.txt\nb.txt");
    assert!(!app.buffer_storage.has_changes());
    assert_eq!(app.undo_stack.get_pointers(), None);
    assert_eq!(at(&app), (1, 2));
}

#[test]
fn a_command_runs_on_the_first_line_too() {
    let mut app = session();
    press(&mut app, "dd");
    assert_eq!(text(&app), "a.txt\nb.txt");
    assert!(app.command_buffer.is_empty());
    assert_eq!(app.mode, Mode::Normal);
    assert_eq!(app.yank_buffer.content, "../");
    assert!(!app.buffer_storage.has_changes());
    press(&mut app, "u");
    assert_eq!(text(&app), "../\na.txt\nb.txt");
}

#[test]
fn escape_gives_a_compound_command_up() {
    let mut app = session();
    press(&mut app, "jlld");
    assert_eq!(app.mode, Mode::Pending);
    press_named(&mut app, KeyCode::Esc);
    assert_eq!(app.mode, Mode::Normal);
    assert!(app.command_buffer.is_empty());
    assert_eq!(at(&app), (2, 2));
    assert_eq!(text(&app), "../\na.txt\nb.txt");
}

#[test]
fn a_named_key_is_no_part_of_a_command() {
    let mut app = session();
    press(&mut app, "jd");
    let action = press_named(&mut app, KeyCode::Other);
    assert!(matches!(action, Action::Nothing));
    assert_eq!(app.command_buffer.buffer(), "d");
    assert_eq!(app.mode, Mode::Pending);
}

#[test]
fn undo_brings_the_deleted_line_back() {
    let mut app = session();
    press(&mut app, "jdd");
    assert_eq!(text(&app), "../\nb.txt");
    press(&mut app, "u");
    assert_eq!(text(&app), "../\na.txt\nb.txt");
    assert_eq!(at(&app), (1, 2));
    app.redo();
    assert_eq!(text(&app), "../\na.txt\nb.txt");
}

#[test]
fn w_and_b_move_by_words() {
    let mut app = session_with(&["foo bar"]);
    press(&mut app, "j");
    assert_eq!(at(&app), (1, 2));
    press(&mut app, "w");
    assert_eq!(at(&app), (5, 2));
    press(&mut app, "b");
    assert_eq!(at(&app), (1, 2));
}

#[test]
fn w_at_the_end_of_a_line_goes_to_the_next_line() {
    let mut app = session_with(&["foo bar", "x"]);
    press(&mut app, "jww");
    assert_eq!(at(&app), (1, 3));
    // on the last line it stops on the last character
    press(&mut app, "w");
    assert_eq!(at(&app), (1, 3));
    press(&mut app, "b");
    assert_eq!(at(&app), (7, 2));
    press(&mut app, "bb");
    assert_eq!(at(&app), (1, 2));
    press(&mut app, "b");
    assert_eq!(at(&app), (3, 1));
}

#[test]
fn vertical_moves_bring_the_column_into_the_line() {
    let mut app = session_with(&["abcdef", "xy"]);
    press(&mut app, "j$");
    assert_eq!(at(&app), (6, 2));
    press(&mut app, "j");
    assert_eq!(at(&app), (2, 3));
    press(&mut app, "j");
    assert_eq!(at(&app), (2, 3));
    press(&mut app, "k$k");
    assert_eq!(at(&app), (3, 1));
    press(&mut app, "k");
    assert_eq!(at(&app), (3, 1));
    press(&mut app, "G");
    assert_eq!(at(&app), (1, 3));
    press(&mut app, "$");
    assert_eq!(at(&app), (2, 3));
    press(&mut app, "0");
    assert_eq!(at(&app), (1, 3));
}

#[test]
fn gg_goes_to_the_first_line() {
    let mut app = session_with(&["abcdef", "xy"]);
    press(&mut app, "j$gg");
    assert_eq!(at(&app), (3, 1));
    assert_eq!(app.mode, Mode::Normal);
}

#[test]
fn horizontal_moves_stay_in_the_line() {
    let mut app = session_with(&["ab"]);
    press(&mut app, "jl");
    assert_eq!(at(&app), (2, 2));
    press(&mut app, "l");
    assert_eq!(at(&app), (2, 2));
    press(&mut app, "hh");
    assert_eq!(at(&app), (1, 2));
    press_named(&mut app, KeyCode::Right);
    assert_eq!(at(&app), (2, 2));
    press_named(&mut app, KeyCode::Left);
    press_named(&mut app, KeyCode::Up);
    assert_eq!(at(&app), (1, 1));
    press_named(&mut app, KeyCode::Down);
    assert_eq!(at(&app), (1, 2));
}

#[test]
fn the_keys_that_enter_insert_mode() {
    let mut app = session_with(&["abc"]);
    press(&mut app, "jli");
    assert_eq!((app.mode, at(&app)), (Mode::Insert, (2, 2)));
    assert_eq!(app.cursor_shape, CursorShape::BlinkingBar);
    press_named(&mut app, KeyCode::Esc);
    assert_eq!((app.mode, at(&app)), (Mode::Normal, (1, 2)));
    assert_eq!(app.cursor_shape, CursorShape::SteadyBlock);
    press(&mut app, "a");
    assert_eq!((app.mode, at(&app)), (Mode::Insert, (2, 2)));
    press_named(&mut app, KeyCode::Esc);
    press(&mut app, "A");
    assert_eq!((app.mode, at(&app)), (Mode::Insert, (4, 2)));
    press(&mut app, "d");
    assert_eq!(text(&app), "../\nabcd");
    press_named(&mut app, KeyCode::Esc);
    press(&mut app, "I");
    assert_eq!((app.mode, at(&app)), (Mode::Insert, (1, 2)));
    press_named(&mut app, KeyCode::Esc);
    press(&mut app, "$s");
    assert_eq!(app.mode, Mode::Insert);
    assert_eq!(text(&app), "../\nabc");
}

#[test]
fn a_on_an_empty_line_stays_in_the_first_column() {
    let mut app = session();
    press(&mut app, "jo");
    press_named(&mut app, KeyCode::Esc);
    press(&mut app, "A");
    assert_eq!(at(&app), (1, 3));
    press(&mut app, "z");
    assert_eq!(text(&app), "../\na.txt\nz\nb.txt");
}

#[test]
fn o_opens_a_line_below_and_big_o_above() {
    let mut app = session();
    press(&mut app, "jo");
    assert_eq!(text(&app), "../\na.txt\n\nb.txt");
    assert_eq!((app.mode, at(&app)), (Mode::Insert, (1, 3)));
    press_named(&mut app, KeyCode::Esc);
    press(&mut app, "kO");
    assert_eq!(text(&app), "../\n\na.txt\n\nb.txt");
    assert_eq!((app.mode, at(&app)), (Mode::Insert, (1, 2)));
    assert!(!app.buffer_storage.has_changes());
}

#[test]
fn typing_in_insert_mode() {
    let mut app = session();
    press(&mut app, "ji");
    press(&mut app, "x y");
    assert_eq!(text(&app), "../\nx ya.txt\nb.txt");
    assert_eq!(at(&app), (4, 2));
    let modified = app.get_files(State::Modified);
    assert_eq!(names(&modified), vec!["x ya.txt"]);
    assert_eq!(modified[0].original_name, "a.txt");
}

#[test]
fn backspace_deletes_before_the_cursor() {
    let mut app = session();
    press(&mut app, "jlli");
    press_named(&mut app, KeyCode::Backspace);
    assert_eq!(text(&app), "../\natxt\nb.txt");
    assert_eq!(at(&app), (2, 2));
    press_named(&mut app, KeyCode::Backspace);
    assert_eq!(text(&app), "../\ntxt\nb.txt");
    assert_eq!(at(&app), (1, 2));
}

#[test]
fn backspace_in_the_first_column_joins_the_line_to_the_one_above() {
    let mut app = session();
    press(&mut app, "jji");
    press_named(&mut app, KeyCode::Backspace);
    assert_eq!(text(&app), "../\na.txtb.txt");
    assert_eq!(at(&app), (6, 2));
    assert_eq!(names(&app.get_files(State::Modified)), vec!["a.txtb.txt"]);
    assert_eq!(names(&app.get_files(State::Unmodified)), vec!["b.txt"]);
}

#[test]
fn backspace_at_the_start_of_the_buffer_does_nothing() {
    let mut app = session();
    press(&mut app, "i");
    press_named(&mut app, KeyCode::Backspace);
    assert_eq!(text(&app), "../\na.txt\nb.txt");
    assert_eq!(at(&app), (1, 1));
}

#[test]
fn enter_in_insert_mode_breaks_the_line() {
    let mut app = session();
    press(&mut app, "jli");
    press_named(&mut app, KeyCode::Enter);
    assert_eq!(text(&app), "../\na\n.txt\nb.txt");
    assert_eq!(at(&app), (1, 3));
    let modified = app.get_files(State::Modified);
    assert_eq!(names(&modified), vec!["a"]);
    assert_eq!(modified[0].original_name, "a.txt");
    assert_eq!(names(&app.get_files(State::Created)), vec![".txt"]);
}

#[test]
fn a_key_with_a_longer_text_is_put_in_as_it_is() {
    let mut app = session();
    press(&mut app, "ji");
    handle_key_events(KeyEvent::new(KeyCode::Other, "Tab".to_string()), &mut app);
    assert_eq!(text(&app), "../\nTaba.txt\nb.txt");
    assert_eq!(at(&app), (2, 2));
}

#[test]
fn the_command_line() {
    let mut app = session();
    press(&mut app, ":");
    assert_eq!(app.mode, Mode::Command);
    assert_eq!(app.command, None);
    press(&mut app, "a!b");
    assert_eq!(app.command, Some("ab".to_string()));
    press_named(&mut app, KeyCode::Backspace);
    assert_eq!(app.command, Some("a".to_string()));
    press_named(&mut app, KeyCode::Backspace);
    press_named(&mut app, KeyCode::Backspace);
    assert_eq!(app.command, Some(String::new()));
    press_named(&mut app, KeyCode::Esc);
    assert_eq!(app.command, None);
    assert_eq!(app.mode, Mode::Normal);
}

#[test]
fn q_and_wq_end_the_session() {
    for command in ["q", "wq"] {
        let mut app = session();
        press(&mut app, ":");
        press(&mut app, command);
        press_named(&mut app, KeyCode::Enter);
        assert!(!app.running);
    }
}

#[test]
fn an_unknown_command_line_just_leaves_command_mode() {
    let mut app = session();
    press(&mut app, ":zz");
    press_named(&mut app, KeyCode::Enter);
    assert!(app.running);
    assert_eq!(app.mode, Mode::Normal);
    assert_eq!(app.command, None);
    assert!(!app.need_confirmation);
}

#[test]
fn w_without_changes_asks_nothing() {
    let mut app = session();
    press(&mut app, ":w");
    press_named(&mut app, KeyCode::Enter);
    assert!(!app.need_confirmation);
    assert_eq!(app.mode, Mode::Normal);
}

#[test]
fn declining_gives_the_changes_up() {
    let mut app = session();
    press(&mut app, "jdd:w");
    press_named(&mut app, KeyCode::Enter);
    assert!(app.need_confirmation);
    // any other key leaves the question open
    press(&mut app, "x");
    assert!(app.need_confirmation);
    assert_eq!(text(&app), "../\nb.txt");
    press(&mut app, "n");
    assert!(!app.need_confirmation);
    assert!(!app.buffer_storage.has_changes());
    assert!(app.rerender_dir_content);
    assert_eq!(names(&app.get_files(State::Unmodified)), vec!["a.txt", "b.txt"]);
    app.refresh_buffer(&vec!["./a.txt".to_string(), "./b.txt".to_string()]);
    assert_eq!(text(&app), "../\na.txt\nb.txt");
}

#[test]
fn escape_declines_too() {
    let mut app = session();
    press(&mut app, "jdd:w");
    press_named(&mut app, KeyCode::Enter);
    let action = press_named(&mut app, KeyCode::Esc);
    assert!(matches!(action, Action::Nothing));
    assert!(!app.need_confirmation);
    assert!(!app.buffer_storage.has_changes());
}

#[test]
fn confirming_a_deletion_deletes_and_forgets_the_entry() {
    let mut app = session();
    press(&mut app, "jdd:w");
    press_named(&mut app, KeyCode::Enter);
    assert_eq!(confirm(&mut app), vec![FsOperation::Delete("a.txt".to_string())]);
    assert_eq!(names(&app.get_files(State::Unmodified)), vec!["b.txt"]);
    assert!(app.get_files(State::Deleted).is_empty());
}

#[test]
fn enter_asks_for_the_directory_under_the_cursor() {
    let mut app = session_with(&["sub", "x"]);
    press(&mut app, "jl");
    match press_named(&mut app, KeyCode::Enter) {
        Action::Open(line) => assert_eq!(line, "sub"),
        _ => panic!("no directory asked for"),
    }
    assert_eq!(at(&app), (1, 1));
    assert!(app.rerender_dir_content);
    assert_eq!(app.directory_after("sub", true), "/home/u/sub");
    assert_eq!(app.directory_after("sub", false), "/home/u");
    app.enter_directory("sub", true, &Some(vec![listed("inner", FileType::File)]));
    assert_eq!(app.path.get_absolute_path(), "/home/u/sub");
    assert!(app.buffer_storage.has_view("/home/u/sub"));
    app.refresh_buffer(&vec!["./sub/inner".to_string()]);
    assert_eq!(text(&app), "../\ninner");
    // an edit there is bound to the directory there
    press(&mut app, "jx");
    let modified = app.get_files(State::Modified);
    assert_eq!(names(&modified), vec!["nner"]);
    assert_eq!(modified[0].dir, "/home/u/sub");
    press(&mut app, ":w");
    press_named(&mut app, KeyCode::Enter);
    assert_eq!(
        confirm(&mut app),
        vec![FsOperation::Rename("sub/inner".to_string(), "sub/nner".to_string())]
    );
}

#[test]
fn entering_a_directory_that_is_not_there_changes_nothing() {
    let mut app = session();
    app.enter_directory("nope", false, &Some(Vec::new()));
    assert_eq!(app.path.get_absolute_path(), "/home/u");
    assert_eq!(names(&app.get_files(State::Unmodified)), vec!["a.txt", "b.txt"]);
}

#[test]
fn the_visual_modes_are_left_by_escape() {
    for (c, mode) in [('v', Mode::Visual), ('V', Mode::VisualLine)] {
        let mut app = session();
        press(&mut app, "jl");
        handle_key_events(key(c), &mut app);
        assert_eq!(app.mode, mode);
        press(&mut app, "x");
        assert_eq!(text(&app), "../\na.txt\nb.txt");
        press_named(&mut app, KeyCode::Esc);
        assert_eq!(app.mode, Mode::Normal);
        assert_eq!(at(&app), (1, 2));
    }
    let mut app = session();
    handle_key_events(KeyEvent::new(KeyCode::Ctrl('v'), "v".to_string()), &mut app);
    assert_eq!(app.mode, Mode::VisualBlock);
    press_named(&mut app, KeyCode::Esc);
    assert_eq!(app.mode, Mode::Normal);
}

#[test]
fn x_deletes_the_character_under_the_cursor() {
    let mut app = session_with(&["ab"]);
    press(&mut app, "j$x");
    assert_eq!(text(&app), "../\na");
    assert_eq!(at(&app), (1, 2));
    press(&mut app, "x");
    assert_eq!(text(&app), "../\n");
    assert_eq!(at(&app), (1, 2));
    press(&mut app, "x");
    assert_eq!(text(&app), "../\n");
}

#[test]
fn an_erased_and_retyped_name_is_a_rename() {
    let mut app = session_with(&["ab"]);
    press(&mut app, "jxxic");
    assert_eq!(text(&app), "../\nc");
    let modified = app.get_files(State::Modified);
    assert_eq!(names(&modified), vec!["c"]);
    assert_eq!(modified[0].original_name, "ab");
    assert!(app.get_files(State::Created).is_empty());
}

#[test]
fn dw_deletes_the_rest_of_the_word() {
    let mut app = session_with(&["foo bar"]);
    press(&mut app, "jldw");
    assert_eq!(text(&app), "../\nf bar");
    assert_eq!(app.yank_buffer.content, "oo");
    assert_eq!(app.yank_buffer.yank_type, YankType::Word);
    assert_eq!(at(&app), (2, 2));
    assert_eq!(names(&app.get_files(State::Modified)), vec!["f bar"]);
    press(&mut app, "u");
    assert_eq!(text(&app), "../\nfoo bar");
}

#[test]
fn cw_changes_the_rest_of_the_word() {
    let mut app = session_with(&["foo bar"]);
    press(&mut app, "jcw");
    assert_eq!(text(&app), "../\n bar");
    assert_eq!(app.mode, Mode::Insert);
    press(&mut app, "x");
    assert_eq!(text(&app), "../\nx bar");
}

#[test]
fn diw_deletes_the_word_under_the_cursor() {
    let mut app = session_with(&["foo bar"]);
    press(&mut app, "j$hdiw");
    assert_eq!(text(&app), "../\nfoo ");
    assert_eq!(app.yank_buffer.content, "bar");
    assert_eq!(app.yank_buffer.yank_type, YankType::Word);
    assert_eq!(at(&app), (5, 2));
    assert_eq!(names(&app.get_files(State::Modified)), vec!["foo "]);
    // on no word nothing happens
    press(&mut app, "hdiw");
    assert_eq!(text(&app), "../\nfoo ");
    assert_eq!(app.yank_buffer.content, "bar");
}

#[test]
fn ciw_changes_the_word_under_the_cursor() {
    let mut app = session_with(&["foo bar"]);
    press(&mut app, "jlciw");
    assert_eq!(text(&app), "../\n bar");
    assert_eq!((app.mode, at(&app)), (Mode::Insert, (1, 2)));
}

#[test]
fn cc_changes_the_line() {
    let mut app = session();
    press(&mut app, "jllcc");
    assert_eq!(text(&app), "../\n\nb.txt");
    assert_eq!((app.mode, at(&app)), (Mode::Insert, (1, 2)));
    assert_eq!(app.yank_buffer.content, "a.txt");
    assert_eq!(names(&app.get_files(State::Deleted)), vec!["a.txt"]);
    press(&mut app, "n");
    assert_eq!(names(&app.get_files(State::Created)), vec!["n"]);
}

#[test]
fn dj_and_dk_delete_two_lines() {
    let mut app = session_with(&["a", "b", "c"]);
    press(&mut app, "jdj");
    assert_eq!(text(&app), "../\nc");
    assert_eq!(names(&app.get_files(State::Deleted)), vec!["a", "b"]);
    let mut app = session_with(&["a", "b", "c"]);
    press(&mut app, "jjdk");
    assert_eq!(text(&app), "../\nc");
    let mut app = session_with(&["a", "b", "c"]);
    // from the last line the cursor has moved up once already
    press(&mut app, "jjjdk");
    assert_eq!(text(&app), "../\nb");
    assert_eq!(at(&app), (1, 2));
}

#[test]
fn cj_and_ck_delete_a_line_and_change_the_next() {
    let mut app = session_with(&["a", "b", "c"]);
    press(&mut app, "jcj");
    assert_eq!(text(&app), "../\n\nc");
    assert_eq!(app.mode, Mode::Insert);
    let mut app = session_with(&["a", "b", "c"]);
    press(&mut app, "jjck");
    assert_eq!(text(&app), "../\n\nc");
    assert_eq!(at(&app), (1, 2));
}

#[test]
fn yy_and_p_copy_a_line() {
    let mut app = session();
    press(&mut app, "jyy");
    assert_eq!(app.yank_buffer.content, "a.txt");
    assert_eq!(app.yank_buffer.yank_type, YankType::Line);
    assert_eq!(text(&app), "../\na.txt\nb.txt");
    press(&mut app, "jp");
    assert_eq!(text(&app), "../\na.txt\nb.txt\na.txt");
    assert_eq!(at(&app), (1, 4));
    press(&mut app, "u");
    assert_eq!(text(&app), "../\na.txt\nb.txt");
}

#[test]
fn dd_and_p_move_a_line_and_keep_the_file() {
    let mut app = session();
    press(&mut app, "jddp");
    assert_eq!(text(&app), "../\nb.txt\na.txt");
    assert!(!app.buffer_storage.has_changes());
}

#[test]
fn big_p_pastes_above() {
    let mut app = session();
    press(&mut app, "jjyykP");
    assert_eq!(text(&app), "../\nb.txt\na.txt\nb.txt");
    assert_eq!(at(&app), (1, 2));
}

#[test]
fn a_pasted_line_that_names_no_file_is_created() {
    let mut app = session();
    app.yank_buffer.set_content("n.txt".to_string());
    press(&mut app, "jp");
    assert_eq!(text(&app), "../\na.txt\nn.txt\nb.txt");
    assert_eq!(names(&app.get_files(State::Created)), vec!["n.txt"]);
}

#[test]
fn yiw_and_p_copy_a_word() {
    let mut app = session_with(&["foo bar"]);
    press(&mut app, "jllyiw");
    assert_eq!(app.yank_buffer.content, "foo");
    assert_eq!(app.yank_buffer.yank_type, YankType::Word);
    assert_eq!(at(&app), (1, 2));
    press(&mut app, "$p");
    assert_eq!(text(&app), "../\nfoo bafoor");
    assert_eq!(at(&app), (10, 2));
    press(&mut app, "0P");
    assert_eq!(text(&app), "../\nfoofoo bafoor");
    assert_eq!(at(&app), (4, 2));
}

#[test]
fn a_key_without_a_meaning_does_nothing_in_normal_mode() {
    let mut app = session();
    press(&mut app, "jz5!");
    let action = press_named(&mut app, KeyCode::Other);
    assert!(matches!(action, Action::Nothing));
    let action = press_named(&mut app, KeyCode::Backspace);
    assert!(matches!(action, Action::Nothing));
    assert_eq!(app.mode, Mode::Normal);
    assert!(app.command_buffer.is_empty());
    assert_eq!(text(&app), "../\na.txt\nb.txt");
    assert_eq!(at(&app), (1, 2));
}

#[test]
fn escape_in_normal_mode_only_drops_the_pending_keys() {
    let mut app = session();
    press(&mut app, "jl");
    press_named(&mut app, KeyCode::Esc);
    assert_eq!(app.mode, Mode::Normal);
    assert_eq!(at(&app), (2, 2));
}

#[test]
fn escape_leaves_command_mode_one_column_to_the_left() {
    let mut app = session();
    press(&mut app, "jl:w");
    press_named(&mut app, KeyCode::Esc);
    assert_eq!(app.mode, Mode::Normal);
    assert_eq!(app.command, None);
    assert_eq!(at(&app), (1, 2));
    assert!(!app.need_confirmation);
}

#[test]
fn after_three_wrong_keys_a_command_can_still_be_typed() {
    let mut app = session();
    press(&mut app, "jdxz");
    assert_eq!(app.mode, Mode::Pending);
    press(&mut app, "dd");
    assert_eq!(app.mode, Mode::Normal);
    assert_eq!(text(&app), "../\nb.txt");
}

#[test]
fn a_directory_that_cannot_be_listed_is_not_entered() {
    let mut app = session_with(&["sub"]);
    app.enter_directory("sub", true, &None);
    assert_eq!(app.path.get_absolute_path(), "/home/u");
    assert_eq!(app.path.get_path_str(), "./");
    assert!(!app.buffer_storage.has_view("/home/u/sub"));
    assert_eq!(names(&app.get_files(State::Unmodified)), vec!["sub"]);
    assert_eq!(text(&app), "../\nsub");
    // once it is kept, it is entered without a listing
    app.enter_directory("sub", true, &Some(Vec::new()));
    app.enter_directory("..", true, &None);
    assert_eq!(app.path.get_absolute_path(), "/home/u");
    app.enter_directory("sub", true, &None);
    assert_eq!(app.path.get_absolute_path(), "/home/u/sub");
}

#[test]
fn a_blank_line_that_gets_text_is_created_under_that_text() {
    let mut app = session();
    press(&mut app, "Go");
    press(&mut app, " ");
    assert_eq!(text(&app), "../\na.txt\nb.txt\n ");
    press(&mut app, "a");
    assert_eq!(text(&app), "../\na.txt\nb.txt\n a");
    assert_eq!(names(&app.get_files(State::Created)), vec![" a"]);
    assert_eq!(names(&app.get_files(State::Unmodified)), vec!["a.txt", "b.txt"]);
    press_named(&mut app, KeyCode::Esc);
    press(&mut app, ":w");
    press_named(&mut app, KeyCode::Enter);
    // the whitespace goes when the file is made
    assert_eq!(confirm(&mut app), vec![FsOperation::CreateFile("a".to_string())]);
}

#[test]
fn y_starts_a_command_without_being_an_initializer() {
    let mut app = session();
    assert!(!app.command_buffer.is_initializer("y"));
    press(&mut app, "jy");
    assert_eq!(app.mode, Mode::Pending);
    assert_eq!(app.command_buffer.buffer(), "y");
    press(&mut app, "y");
    assert_eq!(app.mode, Mode::Normal);
    assert_eq!(app.yank_buffer.content, "a.txt");
}
