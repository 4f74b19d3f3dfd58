use dirbuf::app::App;
use dirbuf::buffer_storage::{FileType, Listed, State};
use dirbuf::model::Mode;
use dirbuf::render_utils::{
    get_confirmation_content, get_current_file, get_current_folder, get_dirname,
    get_file_extension, get_footer, get_header, get_hostname, get_label_color, get_line_colors,
    get_line_state,
    get_preview_title, Color, Segment, SummaryLine,
};

fn session() -> App {
    let listing: Vec<Listed> = [("a.txt", FileType::File), ("sub", FileType::Directory), ("c", FileType::File), ("d", FileType::File)]
        .iter()
        .map(|(n, t)| Listed { name: n.to_string(), file_type: *t })
        .collect();
    let mut app = App::start("/home/u", &listing);
    app.refresh_buffer(&vec!["./a.txt".to_string(), "./sub".to_string()]);
    app
}

fn parts(segments: &[Segment]) -> Vec<(String, Color)> {
    segments.iter().map(|s| (s.text.clone(), s.color)).collect()
}

fn summary(lines: &[SummaryLine]) -> Vec<(State, String, String)> {
    lines.iter().map(|l| (l.state, l.label.clone(), l.text.clone())).collect()
}

#[test]
fn the_prompt_is_the_user_at_the_host() {
    assert_eq!(get_hostname("me\n", " box \n"), "me@box");
    assert_eq!(get_hostname("", ""), "@");
}

#[test]
fn the_header_shows_the_prompt_and_the_directory() {
    let app = session();
    assert_eq!(get_dirname(&app), "/home/u");
    assert_eq!(get_current_folder(&app), "u");
    assert_eq!(
        parts(&get_header(&app, "me\n", "box\n")),
        vec![("me@box".to_string(), Color::Yellow), (" /home/u".to_string(), Color::Blue)]
    );
}

#[test]
fn the_footer_shows_the_mode_and_the_file() {
    let mut app = session();
    assert_eq!(
        parts(&get_footer(&app, "-rw-r--r--", "4,0K")),
        vec![
            ("NORMAL".to_string(), Color::White),
            (" -rw-r--r--        ".to_string(), Color::Magenta),
            (" 4,0K        ".to_string(), Color::Green),
        ]
    );
    app.set_mode(Mode::Insert);
    assert_eq!(get_footer(&app, "", "")[0].text, "INSERT");
}

#[test]
fn the_footer_shows_the_command_line_in_command_mode() {
    let mut app = session();
    app.set_mode(Mode::Command);
    assert_eq!(parts(&get_footer(&app, "p", "s")), vec![(":".to_string(), Color::Default)]);
    app.command = Some("wq".to_string());
    assert_eq!(parts(&get_footer(&app, "p", "s")), vec![(":wq".to_string(), Color::Default)]);
}

#[test]
fn every_mode_has_its_name() {
    let all = [
        (Mode::Normal, "NORMAL"),
        (Mode::Insert, "INSERT"),
        (Mode::Command, "COMMAND"),
        (Mode::Visual, "VISUAL"),
        (Mode::VisualBlock, "V-BLOCK"),
        (Mode::VisualLine, "V-LINE"),
        (Mode::Pending, "PENDING"),
    ];
    for (mode, name) in all {
        assert_eq!(mode.to_string(), name);
    }
    assert_eq!(Mode::default(), Mode::Normal);
}

#[test]
fn the_confirmation_lists_what_is_pending() {
    let mut app = session();
    assert!(get_confirmation_content(&app).is_empty());
    let mut view = app.buffer_storage.get_view("/home/u").unwrap();
    view.delete_file("sub");
    view.set_name("a.txt", "b.txt");
    view.add_file("n", FileType::File);
    view.set_path("c", "/tmp");
    app.buffer_storage.update_view("/home/u", view);
    assert_eq!(
        summary(&get_confirmation_content(&app)),
        vec![
            (State::Modified, "RENAME ".to_string(), "a.txt -> b.txt".to_string()),
            (State::Created, "CREATE ".to_string(), "n".to_string()),
            (State::Deleted, "DELETE ".to_string(), "sub".to_string()),
            (State::Moved, "MOVE ".to_string(), "c".to_string()),
        ]
    );
    assert_eq!(get_label_color(State::Modified), Color::Green);
    assert_eq!(get_label_color(State::Created), Color::Cyan);
    assert_eq!(get_label_color(State::Deleted), Color::Red);
    assert_eq!(get_label_color(State::Moved), Color::Magenta);
    assert_eq!(get_label_color(State::Unmodified), Color::Default);
}

#[test]
fn lines_are_coloured_by_kind() {
    let app = session();
    let view = "/home/u";
    assert_eq!(get_line_colors(&app, view, "a.txt", "sub"), (Color::Default, Color::LightGreen));
    assert_eq!(get_line_colors(&app, view, "a.txt", " a.txt "), (Color::LightGreen, Color::Black));
    assert_eq!(get_line_colors(&app, view, "sub", "a.txt"), (Color::Default, Color::LightBlue));
    assert_eq!(get_line_colors(&app, view, "sub", "sub"), (Color::LightBlue, Color::Black));
    assert_eq!(get_line_colors(&app, view, "../", "../"), (Color::Default, Color::Default));
    assert_eq!(get_line_colors(&app, "/nowhere", "sub", "sub"), (Color::Default, Color::Default));
}

#[test]
fn the_file_under_the_cursor() {
    let mut app = session();
    assert_eq!(get_current_file(&app), "../");
    app.cursor.move_to(2, 3);
    assert_eq!(get_current_file(&app), "a.txt");
    app.cursor.move_to(6, 3);
    assert_eq!(get_current_file(&app), "");
    app.cursor.move_to(1, 9);
    assert_eq!(get_current_file(&app), "");
    app.cursor.move_to(1, 0);
    assert_eq!(get_current_file(&app), "../");
}

#[test]
fn the_title_of_the_preview() {
    assert_eq!(get_preview_title("../"), "Parent Directory");
    assert_eq!(get_preview_title("a.txt"), "a.txt");
}

#[test]
fn the_extension_of_a_file() {
    assert_eq!(get_file_extension("a.tar.gz"), "gz");
    assert_eq!(get_file_extension("Makefile"), "Makefile");
    assert_eq!(get_file_extension("a."), "");
}

#[test]
fn lines_know_what_is_pending_for_them() {
    let mut app = session();
    let view = "/home/u";
    assert_eq!(get_line_state(&app, view, " a.txt "), Some(State::Unmodified));
    assert_eq!(get_line_state(&app, view, "../"), None);
    assert_eq!(get_line_state(&app, "/nowhere", "a.txt"), None);
    app.buffer_storage.set_state(view, "a.txt", State::Deleted);
    assert_eq!(get_line_state(&app, view, "a.txt"), Some(State::Deleted));
}
