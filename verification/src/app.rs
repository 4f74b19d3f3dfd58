//! The editor: the buffer, the cursor, the registers and the directory
//! buffers of a session, and the edits that keep them together.

use crate::buffer_storage::{
    all_in_state, entries_of_listing, entries_view, has_view, kind_of, resolved_dir, BufferStorage,
    Directory, FileEntry, FileType, Listed, State,
};
use crate::cursor::Cursor;
use crate::file_helper::PathHelper;
use crate::input_buffer::InputBuffer;
use crate::model::{cap16, shape_of, AppState, CursorShape, Mode};
use crate::text::{
    blank_run_before, blank_run_end, concat, join_lines, rfind_char, saturate, split_lines,
    split_text, substring, to_string, trailing_blank_start, word_end, word_run_before, word_run_end,
    word_run_length, word_start,
};
use crate::text_buffer::{valid_row, well_formed_lines, TextBuffer};
use crate::undo_stack::UndoStack;
use crate::yank_buffer::YankBuffer;
use vstd::prelude::*;
use vstd::string::*;

verus! {

impl Default for Mode {
    fn default() -> (r: Self)
        ensures
            r == Mode::Normal,
    {
        Mode::Normal
    }
}

impl Mode {
    /// The name of the mode as the status line shows it.
    pub fn to_string(&self) -> (r: String)
        ensures
            r@ == match *self {
                Mode::Normal => "NORMAL"@,
                Mode::Insert => "INSERT"@,
                Mode::Command => "COMMAND"@,
                Mode::Visual => "VISUAL"@,
                Mode::VisualBlock => "V-BLOCK"@,
                Mode::VisualLine => "V-LINE"@,
                Mode::Pending => "PENDING"@,
            },
    {
        match self {
            Mode::Normal => to_string("NORMAL"),
            Mode::Insert => to_string("INSERT"),
            Mode::Command => to_string("COMMAND"),
            Mode::Visual => to_string("VISUAL"),
            Mode::VisualBlock => to_string("V-BLOCK"),
            Mode::VisualLine => to_string("V-LINE"),
            Mode::Pending => to_string("PENDING"),
        }
    }

    /// The cursor shape that goes with the mode.
    pub fn cursor_shape(&self) -> (r: CursorShape)
        ensures
            r == shape_of(*self),
    {
        match self {
            Mode::Pending => CursorShape::SteadyUnderScore,
            Mode::Insert => CursorShape::BlinkingBar,
            _ => CursorShape::SteadyBlock,
        }
    }
}

/// Why an edit was refused.
#[derive(Debug, Clone, Copy, PartialEq, Eq, Structural)]
pub enum EditError {
    /// A row names no line of the buffer.
    LineOutOfBounds,
}

impl EditError {
    pub fn message(&self) -> (r: String)
        ensures
            r@ == "Line out of bounds"@,
    {
        to_string("Line out of bounds")
    }
}

/// `v` as a `u16`, cut off at the largest.
pub fn to_u16(v: usize) -> (r: u16)
    ensures
        r == cap16(v as int),
{
    if v > 65535 {
        u16::MAX
    } else {
        v as u16
    }
}

/// The state of a session.
#[derive(Debug)]
pub struct App {
    pub running: bool,
    pub mode: Mode,
    pub buffer_content: TextBuffer,
    pub buffer_storage: BufferStorage,
    pub yank_buffer: YankBuffer,
    pub undo_stack: UndoStack,
    pub command: Option<String>,
    pub path: PathHelper,
    pub cursor: Cursor,
    pub command_buffer: InputBuffer,
    pub need_confirmation: bool,
    pub rerender_dir_content: bool,
    /// The shape the terminal is asked to draw the cursor in.
    pub cursor_shape: CursorShape,
}

impl View for App {
    type V = AppState;

    open spec fn view(&self) -> AppState {
        AppState {
            running: self.running,
            mode: self.mode,
            lines: self.buffer_content@,
            views: self.buffer_storage@,
            yank: self.yank_buffer.content@,
            yank_type: self.yank_buffer.yank_type,
            history: self.undo_stack@,
            command: match self.command {
                Some(c) => Some(c@),
                None => None,
            },
            base: self.path.base(),
            current: self.path.current(),
            container: self.cursor.container,
            x: self.cursor.x,
            y: self.cursor.y,
            keys: self.command_buffer@,
            need_confirmation: self.need_confirmation,
            rerender_dir_content: self.rerender_dir_content,
            cursor_shape: self.cursor_shape,
        }
    }
}

impl App {
    /// A session in mode `mode` on the text `buffer_content`, in the
    /// directory `path` of a process started in `pwd`. The text is the first
    /// entry of the history, and the directory is kept with its listing.
    pub fn new(
        mode: Mode,
        buffer_content: String,
        path: &str,
        pwd: &str,
        listing: &Vec<Listed>,
    ) -> (r: Self)
        ensures
            r@.running,
            r@.mode == mode,
            r@.cursor_shape == shape_of(mode),
            r@.lines == split_lines(buffer_content@),
            r@.views == seq![
                (
                    r@.dir(),
                    Directory {
                        dir: resolved_dir(r@.dir(), pwd@),
                        files: entries_of_listing(listing@, resolved_dir(r@.dir(), pwd@)),
                    },
                ),
            ],
            r@.yank.len() == 0,
            r@.history.snapshots == seq![buffer_content@],
            r@.history.cursors == seq![(0usize, 0usize)],
            r@.history.index == 1,
            r@.command is None,
            r@.base == pwd@,
            r@.current == path@,
            r@.container is None,
            r@.x == 1 && r@.y == 1,
            r@.keys.len() == 0,
            !r@.need_confirmation,
            r@.rerender_dir_content,
    {
        let mut undo_stack = UndoStack::new();
        let buffer = TextBuffer::from_text(buffer_content.as_str());
        proof {
            assert(undo_stack@.snapshots =~= Seq::<Seq<char>>::empty());
            assert(undo_stack@.cursors.len() == 0);
            assert(undo_stack@.cursors =~= Seq::<(usize, usize)>::empty());
        }
        undo_stack.push(buffer_content, 0, 0);
        let mut buffer_storage = BufferStorage::new();
        let ghost empty = buffer_storage@;
        let place = PathHelper::new(path, pwd);
        let dir = place.get_absolute_path();
        buffer_storage.add_view(dir, pwd, listing);
        proof {
            assert(empty =~= Seq::<(Seq<char>, Directory)>::empty());
            assert(!has_view(empty, place.absolute()));
            assert(undo_stack@.snapshots =~= seq![buffer_content@]);
            assert(undo_stack@.cursors =~= seq![(0usize, 0usize)]);
        }
        App {
            running: true,
            command: None,
            mode,
            buffer_content: buffer,
            buffer_storage,
            yank_buffer: YankBuffer::new(),
            undo_stack,
            path: place,
            cursor: Cursor::default(),
            command_buffer: InputBuffer::new(),
            need_confirmation: false,
            rerender_dir_content: true,
            cursor_shape: mode.cursor_shape(),
        }
    }

    /// A session in normal mode on an empty buffer, in the directory `pwd`
    /// that the process was started in.
    pub fn start(pwd: &str, listing: &Vec<Listed>) -> (r: Self)
        ensures
            r@.running,
            r@.mode == Mode::Normal,
            r@.cursor_shape == CursorShape::SteadyBlock,
            r@.lines == seq![Seq::<char>::empty()],
            r@.views == seq![
                (
                    r@.dir(),
                    Directory {
                        dir: resolved_dir(r@.dir(), pwd@),
                        files: entries_of_listing(listing@, resolved_dir(r@.dir(), pwd@)),
                    },
                ),
            ],
            r@.yank.len() == 0,
            r@.history.snapshots.len() == 0,
            r@.history.index == 0,
            r@.command is None,
            r@.base == pwd@,
            r@.current == "./"@,
            r@.container is None,
            r@.x == 1 && r@.y == 1,
            r@.keys.len() == 0,
            !r@.need_confirmation,
            r@.rerender_dir_content,
    {
        let mut buffer_storage = BufferStorage::new();
        let ghost empty = buffer_storage@;
        let place = PathHelper::new("./", pwd);
        let dir = place.get_absolute_path();
        buffer_storage.add_view(dir, pwd, listing);
        proof {
            assert(empty =~= Seq::<(Seq<char>, Directory)>::empty());
            assert(!has_view(empty, place.absolute()));
        }
        App {
            running: true,
            mode: Mode::Normal,
            buffer_content: TextBuffer::new(),
            buffer_storage,
            yank_buffer: YankBuffer::new(),
            undo_stack: UndoStack::new(),
            command: None,
            path: place,
            cursor: Cursor::default(),
            command_buffer: InputBuffer::new(),
            need_confirmation: false,
            rerender_dir_content: true,
            cursor_shape: CursorShape::SteadyBlock,
        }
    }

    /// Nothing happens on a tick.
    pub fn tick(&self) {
    }

    pub fn quit(&mut self)
        ensures
            final(self)@ == (AppState { running: false, ..old(self)@ }),
    {
        self.running = false;
    }

    /// Enters `mode` and asks for the cursor shape that goes with it.
    pub fn set_mode(&mut self, mode: Mode)
        ensures
            final(self)@ == old(self)@.set_mode(mode),
    {
        self.mode = mode;
        self.cursor_shape = mode.cursor_shape();
    }

    /// Cuts the buffer off before its last word: at the last space of what
    /// is left of the text without its trailing whitespace, or to nothing
    /// where that holds no space.
    pub fn pop_word(&mut self)
        ensures
            final(self)@ == old(self)@.pop_word(),
    {
        let text = self.buffer_content.to_text();
        let n: usize = text.as_str().unicode_len();
        let mut end: usize = n;
        while end > 0 && text.as_str().get_char(end - 1).is_whitespace()
            invariant
                n == text@.len(),
                end <= n,
                trailing_blank_start(text@, n as int) == trailing_blank_start(text@, end as int),
            decreases end,
        {
            end -= 1;
        }
        let kept = substring(text.as_str(), 0, end);
        let cut = match rfind_char(kept.as_str(), ' ') {
            Some(i) => substring(text.as_str(), 0, i),
            None => String::new(),
        };
        self.buffer_content = TextBuffer::from_text(cut.as_str());
    }

    /// Appends an empty line to the buffer.
    pub fn append_linebreak(&mut self)
        ensures
            final(self)@ == old(self)@.append_linebreak(),
    {
        let mut text = self.buffer_content.to_text();
        text.append("\n");
        proof {
            reveal_strlit("\n");
            assert("\n"@ =~= seq!['\n']);
            crate::text_buffer::lemma_split_with_line_feed(self.buffer_content@);
        }
        self.buffer_content = TextBuffer::from_text(text.as_str());
    }

    /// Puts `text` in before `(col, row)` and lets the directory buffer
    /// follow.
    pub fn insert_text(&mut self, col: usize, row: usize, text: &str)
        ensures
            final(self)@ == old(self)@.insert(col as int, row as int, text@),
    {
        if col >= 1 {
            self.insert_after(col - 1, row, text);
        }
    }

    /// Puts `text` in behind the first `index` characters of line `row` and
    /// lets the directory buffer follow.
    pub fn insert_after(&mut self, index: usize, row: usize, text: &str)
        ensures
            final(self)@ == old(self)@.insert(index + 1, row as int, text@),
    {
        let line = match self.buffer_content.line(row) {
            Some(line) => line,
            None => {
                return ;
            },
        };
        let n: usize = line.as_str().unicode_len();
        if index > n {
            return ;
        }
        let mut merged = substring(line.as_str(), 0, index);
        merged.append(text);
        let tail = substring(line.as_str(), index, n);
        merged.append(tail.as_str());
        let pieces = split_text(merged.as_str());
        self.buffer_content.insert_after(index, row, text);
        let dir = self.path.get_absolute_path();
        self.buffer_storage.bind_lines(dir.as_str(), line.as_str(), &pieces);
    }

    /// Puts `content` in before `(x, y)`. Line feeds in it start new lines. A
    /// position outside the buffer changes nothing. The directory buffer
    /// follows: the entry of the line is renamed to the text of the line,
    /// and a line without an entry that held nothing but whitespace becomes
    /// a file that waits to be created, called by the text of the line.
    pub fn insert_at(&mut self, x: u16, y: u16, content: &str)
        ensures
            final(self)@ == old(self)@.insert(x as int, y as int, content@),
    {
        self.insert_text(x as usize, y as usize, content);
    }

    /// Takes out the character at `(x, y)` and renames the entry of the
    /// line.
    pub fn delete_at(&mut self, x: u16, y: u16)
        ensures
            final(self)@ == old(self)@.delete_at(x as int, y as int),
    {
        self.delete_chars(x as usize, y as usize, 1);
    }

    /// Takes out the `length` characters from `(col, row)` on and lets the
    /// directory buffer follow.
    pub fn delete_chars(&mut self, col: usize, row: usize, length: usize)
        ensures
            final(self)@ == old(self)@.delete_range(col as int, row as int, length as int),
    {
        let line = match self.buffer_content.line(row) {
            Some(line) => line,
            None => {
                return ;
            },
        };
        let n: usize = line.as_str().unicode_len();
        if col < 1 || col > n {
            return ;
        }
        self.buffer_content.delete_range(col, row, length);
        let after = match self.buffer_content.line(row) {
            Some(line) => line,
            None => {
                return ;
            },
        };
        let dir = self.path.get_absolute_path();
        self.buffer_storage.rename_line(dir.as_str(), line.as_str(), after.as_str());
    }

    /// Takes out the `length` characters from `(x, y)` on, as far as the line
    /// reaches, and renames the entry of the line.
    pub fn delete_range(&mut self, x: u16, y: u16, length: usize)
        ensures
            final(self)@ == old(self)@.delete_range(x as int, y as int, length as int),
    {
        self.delete_chars(x as usize, y as usize, length);
    }

    /// Takes line `y` out of the buffer. The last line leaves an empty line
    /// behind.
    pub fn delete_line_full(&mut self, y: u16)
        ensures
            final(self)@ == old(self)@.delete_line_full(y as int),
            final(self)@.lines.len() >= 1,
    {
        self.buffer_content.delete_line_full(y as usize);
    }

    /// Empties line `y` and keeps it.
    pub fn delete_line(&mut self, y: u16)
        ensures
            final(self)@ == old(self)@.delete_line(y as int),
    {
        self.buffer_content.delete_line(y as usize);
    }

    /// Puts the cursor on the last character of its line.
    pub fn move_max_x(&mut self)
        ensures
            final(self)@ == old(self)@.move_max_x(),
    {
        let len: usize = match self.buffer_content.line_length(self.cursor.y as usize) {
            Some(n) => n,
            None => 0,
        };
        self.cursor.x = if len < 1 {
            1
        } else {
            to_u16(len)
        };
    }

    /// Puts the cursor on the last line.
    pub fn move_max_y(&mut self)
        ensures
            final(self)@ == old(self)@.move_max_y(),
    {
        self.cursor.y = to_u16(self.buffer_content.line_count());
    }

    /// The column just past the word under column `start` of `s`, one more
    /// where `inclusive` is set; `start + 1` where `start` holds no word
    /// character.
    pub fn get_end_x(&self, s: &String, start: usize, inclusive: bool) -> (r: usize)
        ensures
            r == saturate(word_end(s@, start as int, inclusive)),
    {
        crate::text::get_end_x(s.as_str(), start, inclusive)
    }

    /// The column a backward word motion reaches from column `start` of `s`.
    pub fn get_start_x(&self, s: &String, start: usize) -> (r: usize)
        ensures
            r == word_start(s@, start as int),
    {
        crate::text::get_start_x(s.as_str(), start)
    }

    /// Takes out the rest of the word under `(x, y)`, or the one character
    /// there where it is no word character, and renames the entry of the
    /// line.
    pub fn delete_word(&mut self, x: u16, y: u16)
        ensures
            final(self)@ == old(self)@.delete_word(x as int, y as int),
    {
        let line = match self.buffer_content.line(y as usize) {
            Some(line) => line,
            None => {
                return ;
            },
        };
        let n: usize = line.as_str().unicode_len();
        if x < 1 || x as usize > n {
            return ;
        }
        let length: usize = if line.as_str().get_char(x as usize - 1).is_alphanumeric() {
            word_run_length(line.as_str(), x as usize)
        } else {
            1
        };
        self.delete_chars(x as usize, y as usize, length);
    }

    /// The text of the buffer once line `y2` is appended to line `y1` and
    /// taken out of the list. All other lines keep their order.
    pub fn merge_lines(&self, y1: usize, y2: usize) -> (r: Result<String, EditError>)
        ensures
            match r {
                Ok(text) => valid_row(self@.lines, y1 as int) && valid_row(self@.lines, y2 as int)
                    && text@ == join_lines(
                    crate::text_buffer::lines_merged(self@.lines, y1 as int, y2 as int),
                ),
                Err(e) => !(valid_row(self@.lines, y1 as int) && valid_row(
                    self@.lines,
                    y2 as int,
                )),
            },
    {
        let mut merged = self.buffer_content.duplicate();
        if merged.merge_lines(y1, y2) {
            Ok(merged.to_text())
        } else {
            Err(EditError::LineOutOfBounds)
        }
    }

    /// Appends line `second` to line `first`, takes it out of the list and
    /// renames the entry of line `first`. Nothing changes where a row names
    /// no line or both name the same.
    pub fn merge(&mut self, first: usize, second: usize)
        ensures
            final(self)@ == old(self)@.merge(first as int, second as int),
    {
        let before = match self.buffer_content.line(first) {
            Some(line) => line,
            None => {
                return ;
            },
        };
        let other = match self.buffer_content.line(second) {
            Some(line) => line,
            None => {
                return ;
            },
        };
        if first == second {
            return ;
        }
        let _ = self.buffer_content.merge_lines(first, second);
        let merged = concat(before.as_str(), other.as_str());
        let dir = self.path.get_absolute_path();
        self.buffer_storage.rename_line(dir.as_str(), before.as_str(), merged.as_str());
    }

    /// The number of lines of the buffer.
    pub fn get_line_count(&self) -> (r: usize)
        ensures
            r == self@.lines.len(),
            r >= 1,
            well_formed_lines(self@.lines),
    {
        self.buffer_content.line_count()
    }

    /// The number of characters of line `y`.
    pub fn get_line_length(&self, y: u16) -> (r: Result<usize, EditError>)
        ensures
            match r {
                Ok(n) => valid_row(self@.lines, y as int) && n == self@.lines[y - 1].len(),
                Err(e) => !valid_row(self@.lines, y as int),
            },
    {
        match self.buffer_content.line_length(y as usize) {
            Some(n) => Ok(n),
            None => Err(EditError::LineOutOfBounds),
        }
    }

    /// The number of characters of line `row`; 0 where there is no such
    /// line.
    pub fn line_length_or_zero(&self, row: usize) -> (r: usize)
        ensures
            r == self@.line(row as int).len(),
    {
        match self.buffer_content.line_length(row) {
            Some(n) => n,
            None => 0,
        }
    }

    /// A copy of line `row`; empty where there is no such line.
    pub fn line_or_empty(&self, row: usize) -> (r: String)
        ensures
            r@ == self@.line(row as int),
    {
        match self.buffer_content.line(row) {
            Some(line) => line,
            None => String::new(),
        }
    }

    /// The text of the line under the cursor; nothing where the cursor
    /// stands past the lines or past the characters of its line.
    pub fn get_hovered_filename(&self) -> (r: String)
        ensures
            r@ == self@.hovered(),
    {
        let row: usize = if self.cursor.y < 1 {
            1
        } else {
            self.cursor.y as usize
        };
        match self.buffer_content.line(row) {
            Some(line) => {
                if self.cursor.x as usize > line.as_str().unicode_len() {
                    String::new()
                } else {
                    line
                }
            },
            None => String::new(),
        }
    }

    /// The first column at or after `start` that lies in `s` and holds no
    /// whitespace.
    pub fn seek_whitespace_forward(&self, s: &String, start: usize) -> (r: usize)
        ensures
            r == saturate(blank_run_end(s@, start as int)),
    {
        crate::text::seek_whitespace_forward(s.as_str(), start)
    }

    /// The last column at or before `start` that holds no whitespace.
    pub fn seek_whitespace_backward(&self, s: &String, start: usize) -> (r: usize)
        ensures
            r == blank_run_before(s@, start as int),
    {
        crate::text::seek_whitespace_backward(s.as_str(), start)
    }

    /// The first column at or after `start` that holds no word character.
    pub fn seek_special_character_forward(&self, s: &String, start: usize) -> (r: usize)
        ensures
            r == saturate(word_run_end(s@, start as int)),
    {
        crate::text::seek_special_character_forward(s.as_str(), start)
    }

    /// The first column of the run of word characters that reaches column
    /// `start`.
    pub fn seek_special_character_backward(&self, s: &String, start: usize) -> (r: usize)
        ensures
            r == saturate(word_run_before(s@, start as int) + 1),
    {
        crate::text::seek_special_character_backward(s.as_str(), start)
    }

    /// Steps back in the history: the buffer is the recorded text again,
    /// character for character, and the cursor stands where it was recorded,
    /// as far as 16 bits hold that. Nothing happens at the start of the
    /// history.
    pub fn undo(&mut self)
        ensures
            final(self)@ == old(self)@.undo(),
    {
        match self.undo_stack.undo() {
            Some(text) => {
                self.buffer_content = TextBuffer::from_text(text.as_str());
                match self.undo_stack.get_pointers() {
                    Some((x, y)) => {
                        self.cursor.x = #[verifier::truncate]
                        (x as u16);
                        self.cursor.y = #[verifier::truncate]
                        (y as u16);
                    },
                    None => {},
                }
            },
            None => {},
        }
    }

    /// Steps forward in the history. Nothing happens at its end.
    pub fn redo(&mut self)
        ensures
            final(self)@ == old(self)@.redo(),
    {
        match self.undo_stack.redo() {
            Some(text) => {
                self.buffer_content = TextBuffer::from_text(text.as_str());
            },
            None => {},
        }
    }

    /// The entries of all directories that are in `state`.
    pub fn get_files(&self, state: State) -> (r: Vec<FileEntry>)
        ensures
            entries_view(r@) == all_in_state(self@.views, state),
    {
        self.buffer_storage.get_files(state)
    }

    /// The kind of the entry called `name` of the directory kept under
    /// `dir`.
    pub fn get_file_type(&self, dir: &str, name: &str) -> (r: FileType)
        ensures
            r == kind_of(self@.views, dir@, name@),
    {
        self.buffer_storage.get_file_type(dir, name)
    }

    /// The absolute path of the directory that the session stands in after
    /// an attempt to change into `line`, where `present` says that the path
    /// this leads to exists.
    pub fn directory_after(&self, line: &str, present: bool) -> (r: String)
        ensures
            r@ == crate::file_helper::absolute_path_of(
                self@.base,
                self@.path_after(line@, present),
            ),
    {
        let mut path = self.path.clone();
        let _ = path.cd(line, present);
        path.get_absolute_path()
    }

    /// Tries to change into `line`, where `present` says that the path this
    /// leads to exists and `listing` is what listing the directory there
    /// gave, `None` where it could not be listed. A directory that is not
    /// kept yet is kept with its listing. Where it could not be listed, the
    /// change does not take place and the session stays as it is.
    pub fn enter_directory(&mut self, line: &str, present: bool, listing: &Option<Vec<Listed>>)
        ensures
            final(self)@ == old(self)@.enter(
                line@,
                present,
                match *listing {
                    Some(items) => Some(items@),
                    None => None,
                },
            ),
    {
        let dir = self.directory_after(line, present);
        if self.buffer_storage.has_view(dir.as_str()) {
            let _ = self.path.cd(line, present);
        } else {
            match listing {
                Some(items) => {
                    let _ = self.path.cd(line, present);
                    let pwd = self.path.start_directory().clone();
                    self.buffer_storage.add_view(dir, pwd.as_str(), items);
                },
                None => {},
            }
        }
    }

    /// Asks for confirmation where changes are pending.
    pub fn save(&mut self)
        ensures
            final(self)@ == old(self)@.save(),
    {
        if self.buffer_storage.has_changes() {
            self.need_confirmation = true;
        }
    }

    /// Records the buffer content `lines` in the history, with the cursor as
    /// it stands.
    pub fn record(&mut self, lines: &TextBuffer)
        ensures
            final(self)@ == old(self)@.record(lines@),
    {
        self.undo_stack.push(lines.to_text(), self.cursor.x as usize, self.cursor.y as usize);
    }
}

} // verus!
