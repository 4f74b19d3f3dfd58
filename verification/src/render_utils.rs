//! What the screen shows, as plain values: the texts of the header, the
//! footer and the confirmation, and the colours of the lines. Drawing them
//! is left to the program around the editor.

use crate::app::App;
use crate::buffer_storage::{
    all_in_state, entries_view, kind_of, state_of, Directory, Entry, FileEntry, FileType, State,
};
use crate::model::{AppState, Mode};
use crate::text::{
    concat, last_component, last_index_of, rfind_char, str_eq, substring, to_string, trim, trimmed,
};
use vstd::prelude::*;
use vstd::string::*;

verus! {

/// The colours the screen is drawn in.
#[derive(Debug, Clone, Copy, PartialEq, Eq, Structural)]
pub enum Color {
    /// The colour of the terminal.
    Default,
    Black,
    Red,
    Green,
    Yellow,
    Blue,
    Magenta,
    Cyan,
    White,
    LightGreen,
    LightBlue,
}

/// A piece of text in one colour.
#[derive(Debug)]
pub struct Segment {
    pub text: String,
    pub color: Color,
}

impl View for Segment {
    type V = (Seq<char>, Color);

    open spec fn view(&self) -> (Seq<char>, Color) {
        (self.text@, self.color)
    }
}

/// The views of a sequence of segments.
pub open spec fn segments_view(v: Seq<Segment>) -> Seq<(Seq<char>, Color)> {
    v.map_values(|s: Segment| s@)
}

/// One line of the confirmation: what is pending for an entry.
#[derive(Debug)]
pub struct SummaryLine {
    /// The pending change.
    pub state: State,
    /// The word that names the change, with a space behind it.
    pub label: String,
    /// The entry that the change is pending for.
    pub text: String,
}

/// What a [`SummaryLine`] holds: the change, and the text that names the
/// entry.
pub struct Summary {
    pub state: State,
    pub label: Seq<char>,
    pub text: Seq<char>,
}

impl View for SummaryLine {
    type V = Summary;

    open spec fn view(&self) -> Summary {
        Summary { state: self.state, label: self.label@, text: self.text@ }
    }
}

/// The views of a sequence of summary lines.
pub open spec fn summary_view(v: Seq<SummaryLine>) -> Seq<Summary> {
    v.map_values(|l: SummaryLine| l@)
}

/// The word that names a pending change, with a space behind it.
pub open spec fn label_of(state: State) -> Seq<char> {
    match state {
        State::Modified => "RENAME "@,
        State::Created => "CREATE "@,
        State::Deleted => "DELETE "@,
        State::Moved => "MOVE "@,
        State::Unmodified => Seq::empty(),
    }
}

/// The colour in which a pending change is named.
pub open spec fn label_color(state: State) -> Color {
    match state {
        State::Modified => Color::Green,
        State::Created => Color::Cyan,
        State::Deleted => Color::Red,
        State::Moved => Color::Magenta,
        State::Unmodified => Color::Default,
    }
}

/// The line of the confirmation for an entry: a rename shows the original
/// and the new name, every other change the name.
pub open spec fn summary_of(e: Entry) -> Summary {
    Summary {
        state: e.state,
        label: label_of(e.state),
        text: if e.state == State::Modified {
            e.original_name + " -> "@ + e.name
        } else {
            e.name
        },
    }
}

/// The lines of the confirmation: the renames, then the creations, the
/// deletions and the moves.
pub open spec fn confirmation(views: Seq<(Seq<char>, Directory)>) -> Seq<Summary> {
    all_in_state(views, State::Modified).map_values(|e: Entry| summary_of(e)) + all_in_state(
        views,
        State::Created,
    ).map_values(|e: Entry| summary_of(e)) + all_in_state(views, State::Deleted).map_values(
        |e: Entry| summary_of(e),
    ) + all_in_state(views, State::Moved).map_values(|e: Entry| summary_of(e))
}

/// The background and the foreground of a line that shows a file of kind
/// `file_type`: files are green and directories blue, and the line under
/// the cursor is shown inverted.
pub open spec fn line_colors(file_type: FileType, hovered: bool) -> (Color, Color) {
    match file_type {
        FileType::File => if hovered {
            (Color::LightGreen, Color::Black)
        } else {
            (Color::Default, Color::LightGreen)
        },
        FileType::Directory => if hovered {
            (Color::LightBlue, Color::Black)
        } else {
            (Color::Default, Color::LightBlue)
        },
        FileType::Unknown => (Color::Default, Color::Default),
    }
}

/// What follows the last `.` of `name`; all of it where it holds none.
pub open spec fn extension_of(name: Seq<char>) -> Seq<char> {
    name.subrange(last_index_of(name, '.') + 1, name.len() as int)
}

/// The prompt of the header: the user at the host, each without the
/// whitespace around it.
pub open spec fn prompt(name: Seq<char>, host: Seq<char>) -> Seq<char> {
    trimmed(name) + seq!['@'] + trimmed(host)
}

/// The footer: the command line in command mode; else the mode, the
/// permissions and the size of the file under the cursor.
pub open spec fn footer(s: AppState, permissions: Seq<char>, size: Seq<char>) -> Seq<
    (Seq<char>, Color),
> {
    if s.mode == Mode::Command {
        seq![
            (
                seq![':'] + match s.command {
                    Some(c) => c,
                    None => Seq::empty(),
                },
                Color::Default,
            ),
        ]
    } else {
        seq![
            (mode_name(s.mode), Color::White),
            (seq![' '] + permissions + "        "@, Color::Magenta),
            (seq![' '] + size + "        "@, Color::Green),
        ]
    }
}

/// The name of a mode as the footer shows it.
pub open spec fn mode_name(mode: Mode) -> Seq<char> {
    match mode {
        Mode::Normal => "NORMAL"@,
        Mode::Insert => "INSERT"@,
        Mode::Command => "COMMAND"@,
        Mode::Visual => "VISUAL"@,
        Mode::VisualBlock => "V-BLOCK"@,
        Mode::VisualLine => "V-LINE"@,
        Mode::Pending => "PENDING"@,
    }
}

/// The user at the host.
pub fn get_hostname(name: &str, host: &str) -> (r: String)
    ensures
        r@ == prompt(name@, host@),
{
    proof {
        reveal_strlit("@");
        assert("@"@ =~= seq!['@']);
    }
    let mut r = trim(name);
    r.append("@");
    let host = trim(host);
    r.append(host.as_str());
    r
}

/// The absolute path of the current directory.
pub fn get_dirname(app: &App) -> (r: String)
    ensures
        r@ == app@.dir(),
{
    app.path.get_absolute_path()
}

/// The name of the file under the cursor.
pub fn get_current_file(app: &App) -> (r: String)
    ensures
        r@ == app@.hovered(),
{
    app.get_hovered_filename()
}

/// The name of the current directory without the path to it.
pub fn get_current_folder(app: &App) -> (r: String)
    ensures
        r@ == last_component(app@.dir()),
{
    let path = app.path.get_absolute_path();
    crate::text::trim_path(path.as_str())
}

/// The header: the prompt, and the absolute path of the current directory.
pub fn get_header(app: &App, name: &str, host: &str) -> (r: Vec<Segment>)
    ensures
        segments_view(r@) == seq![
            (prompt(name@, host@), Color::Yellow),
            (seq![' '] + app@.dir(), Color::Blue),
        ],
{
    proof {
        reveal_strlit(" ");
        assert(" "@ =~= seq![' ']);
    }
    let mut out: Vec<Segment> = Vec::new();
    out.push(Segment { text: get_hostname(name, host), color: Color::Yellow });
    let dir = get_dirname(app);
    out.push(Segment { text: concat(" ", dir.as_str()), color: Color::Blue });
    assert(segments_view(out@) =~= seq![
        (prompt(name@, host@), Color::Yellow),
        (seq![' '] + app@.dir(), Color::Blue),
    ]);
    out
}

/// The footer: the command line in command mode; else the mode, the
/// permissions and the size of the file under the cursor.
pub fn get_footer(app: &App, permissions: &str, size: &str) -> (r: Vec<Segment>)
    ensures
        segments_view(r@) == footer(app@, permissions@, size@),
{
    proof {
        reveal_strlit(" ");
        reveal_strlit(":");
        assert(" "@ =~= seq![' ']);
        assert(":"@ =~= seq![':']);
    }
    let mut out: Vec<Segment> = Vec::new();
    match app.mode {
        Mode::Command => {
            let text = match &app.command {
                Some(c) => concat(":", c.as_str()),
                None => {
                    assert(seq![':'] + Seq::<char>::empty() =~= seq![':']);
                    to_string(":")
                },
            };
            out.push(Segment { text, color: Color::Default });
            assert(segments_view(out@) =~= footer(app@, permissions@, size@));
        },
        _ => {
            out.push(Segment { text: app.mode.to_string(), color: Color::White });
            let mut second = concat(" ", permissions);
            second.append("        ");
            out.push(Segment { text: second, color: Color::Magenta });
            let mut third = concat(" ", size);
            third.append("        ");
            out.push(Segment { text: third, color: Color::Green });
            assert(segments_view(out@) =~= footer(app@, permissions@, size@));
        },
    }
    out
}

/// The line of the confirmation for an entry.
pub fn summary_line(file: &FileEntry) -> (r: SummaryLine)
    ensures
        r@ == summary_of(file@),
{
    let label = match file.state {
        State::Modified => to_string("RENAME "),
        State::Created => to_string("CREATE "),
        State::Deleted => to_string("DELETE "),
        State::Moved => to_string("MOVE "),
        State::Unmodified => String::new(),
    };
    let text = match file.state {
        State::Modified => {
            let mut text = concat(file.original_name.as_str(), " -> ");
            text.append(file.name.as_str());
            text
        },
        _ => file.name.clone(),
    };
    SummaryLine { state: file.state, label, text }
}

/// The colour in which a pending change is named.
pub fn get_label_color(state: State) -> (r: Color)
    ensures
        r == label_color(state),
{
    match state {
        State::Modified => Color::Green,
        State::Created => Color::Cyan,
        State::Deleted => Color::Red,
        State::Moved => Color::Magenta,
        State::Unmodified => Color::Default,
    }
}

/// Appends the lines of the confirmation for `files` to `out`.
fn append_summary(out: &mut Vec<SummaryLine>, files: &Vec<FileEntry>)
    ensures
        summary_view(final(out)@) == summary_view(old(out)@) + entries_view(files@).map_values(
            |e: Entry| summary_of(e),
        ),
{
    let ghost start = summary_view(out@);
    let ghost all = entries_view(files@).map_values(|e: Entry| summary_of(e));
    let mut i: usize = 0;
    assert(start + all.take(0) =~= start);
    while i < files.len()
        invariant
            i <= files.len(),
            all == entries_view(files@).map_values(|e: Entry| summary_of(e)),
            summary_view(out@) == start + all.take(i as int),
        decreases files.len() - i,
    {
        let line = summary_line(&files[i]);
        proof {
            assert(line@ == all[i as int]);
            assert(summary_view(out@.push(line)) =~= summary_view(out@).push(line@));
            assert(start + all.take(i + 1) =~= (start + all.take(i as int)).push(all[i as int]));
        }
        out.push(line);
        i += 1;
    }
    assert(all.take(files.len() as int) =~= all);
}

/// The lines of the confirmation: the renames, then the creations, the
/// deletions and the moves.
pub fn get_confirmation_content(app: &App) -> (r: Vec<SummaryLine>)
    ensures
        summary_view(r@) == confirmation(app@.views),
{
    let mut out: Vec<SummaryLine> = Vec::new();
    assert(summary_view(out@) =~= Seq::<Summary>::empty());
    let modified = app.get_files(State::Modified);
    append_summary(&mut out, &modified);
    let created = app.get_files(State::Created);
    append_summary(&mut out, &created);
    let deleted = app.get_files(State::Deleted);
    append_summary(&mut out, &deleted);
    let moved = app.get_files(State::Moved);
    append_summary(&mut out, &moved);
    assert(summary_view(out@) =~= confirmation(app@.views));
    out
}

/// The background and the foreground of `line` in the listing of the
/// directory kept under `current_view`. The line counts as the one under
/// the cursor where it is `hovered_file` without the whitespace around
/// that.
pub fn get_line_colors(app: &App, current_view: &str, line: &str, hovered_file: &str) -> (r: (
    Color,
    Color,
))
    ensures
        r == line_colors(
            kind_of(app@.views, current_view@, trimmed(line@)),
            line@ == trimmed(hovered_file@),
        ),
{
    let name = trim(line);
    let hovered = trim(hovered_file);
    let under_cursor = str_eq(line, hovered.as_str());
    match app.get_file_type(current_view, name.as_str()) {
        FileType::File => if under_cursor {
            (Color::LightGreen, Color::Black)
        } else {
            (Color::Default, Color::LightGreen)
        },
        FileType::Directory => if under_cursor {
            (Color::LightBlue, Color::Black)
        } else {
            (Color::Default, Color::LightBlue)
        },
        FileType::Unknown => (Color::Default, Color::Default),
    }
}

/// The pending change of the file that `line` shows in the listing of the
/// directory kept under `current_view`; none where the line shows no file
/// that is kept there.
pub fn get_line_state(app: &App, current_view: &str, line: &str) -> (r: Option<State>)
    ensures
        r == state_of(app@.views, current_view@, trimmed(line@)),
{
    let name = trim(line);
    app.buffer_storage.get_file_state(current_view, name.as_str())
}

/// The title of the preview: the name under the cursor, spelled out for the
/// way up.
pub fn get_preview_title(hovered_file: &str) -> (r: String)
    ensures
        r@ == if hovered_file@ == "../"@ {
            "Parent Directory"@
        } else {
            hovered_file@
        },
{
    if str_eq(hovered_file, "../") {
        to_string("Parent Directory")
    } else {
        to_string(hovered_file)
    }
}

/// What follows the last `.` of `file_name`, by which the syntax of a file
/// is chosen.
pub fn get_file_extension(file_name: &str) -> (r: String)
    ensures
        r@ == extension_of(file_name@),
{
    let n: usize = file_name.unicode_len();
    match rfind_char(file_name, '.') {
        Some(i) => substring(file_name, i + 1, n),
        None => substring(file_name, 0, n),
    }
}

} // verus!
