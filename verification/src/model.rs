//! The editor as mathematics: the state of a session as plain values, and
//! each command as a function from state to state. The executable editor is
//! proved to follow these functions step by step.
//!
//! Rows and columns are 1-based. A command that meets a position outside the
//! buffer clamps it or does nothing.

use crate::buffer_storage::{
    entries_of_listing, has_view, resolved_dir, storage_pending, view_bound, view_renamed,
    Directory, Listed,
};
use crate::cursor::{capped_sum, Area};
use crate::file_helper::{absolute_path_of, cd_target};
use crate::text::{
    join_lines, last_index_of, split_lines, trailing_blank_start, word_end, word_run_before,
    word_run_end,
};
use crate::text_buffer::{
    inserted, lemma_join_split, lemma_split_join, line_cleared, line_removed, line_with, line_without, lines_merged,
    on_character, range_deleted, valid_position, valid_row, well_formed_lines,
};
use crate::undo_stack::History;
use crate::yank_buffer::YankType;
use vstd::prelude::*;

verus! {

/// How input is read.
#[derive(Debug, Clone, Copy, PartialEq, Eq, Structural)]
pub enum Mode {
    Normal,
    Visual,
    VisualBlock,
    VisualLine,
    Insert,
    Command,
    Pending,
}

/// The shape in which the terminal is asked to draw the cursor.
#[derive(Debug, Clone, Copy, PartialEq, Eq, Structural)]
pub enum CursorShape {
    SteadyBlock,
    SteadyUnderScore,
    BlinkingBar,
}

/// Which key was pressed.
#[derive(Debug, Clone, Copy, PartialEq, Eq, Structural)]
pub enum KeyCode {
    Backspace,
    Enter,
    Left,
    Right,
    Up,
    Down,
    Esc,
    Char(char),
    /// A character key pressed together with the control key.
    Ctrl(char),
    /// Any other key.
    Other,
}

/// A key press as the model sees it: the key, and the text the terminal
/// library gives for it.
pub struct Key {
    pub code: KeyCode,
    pub text: Seq<char>,
}

/// One change to the file system.
pub enum Operation {
    /// Delete the file or the directory tree at the path.
    Delete(Seq<char>),
    /// Rename the first path to the second.
    Rename(Seq<char>, Seq<char>),
    CreateFile(Seq<char>),
    CreateDirectory(Seq<char>),
    /// Move what is at the path into the directory.
    Move(Seq<char>, Seq<char>),
}

/// What a key press asks of the program around the editor.
pub enum Effect {
    Nothing,
    /// Change into the directory that the line names, list it, and hand the
    /// listing back.
    Open(Seq<char>),
    /// Carry the operations out, each on its own.
    Reconcile(Seq<Operation>),
}

/// The state of a session.
pub struct AppState {
    pub running: bool,
    pub mode: Mode,
    /// The lines of the buffer.
    pub lines: Seq<Seq<char>>,
    /// The directory buffers, each with the path it is kept under.
    pub views: Seq<(Seq<char>, Directory)>,
    pub yank: Seq<char>,
    pub yank_type: YankType,
    pub history: History,
    /// The command line, while one is typed.
    pub command: Option<Seq<char>>,
    /// The directory the program was started in.
    pub base: Seq<char>,
    /// The current directory, relative to `base`.
    pub current: Seq<char>,
    pub container: Option<Area>,
    pub x: u16,
    pub y: u16,
    /// The pending keys of a compound command.
    pub keys: Seq<char>,
    pub need_confirmation: bool,
    pub rerender_dir_content: bool,
    pub cursor_shape: CursorShape,
}

/// `v` as a `u16`, cut off at the ends of that type.
pub open spec fn cap16(v: int) -> u16 {
    if v < 0 {
        0
    } else if v > u16::MAX {
        u16::MAX
    } else {
        v as u16
    }
}

/// The column of the last character of a line of `len` characters; 1 for an
/// empty line.
pub open spec fn last_column(len: int) -> u16 {
    if len < 1 {
        1
    } else {
        cap16(len)
    }
}

/// Column `x` brought into a line of `len` characters.
pub open spec fn clamp_column(x: u16, len: int) -> u16 {
    if x < 1 {
        1
    } else if x > last_column(len) {
        last_column(len)
    } else {
        x
    }
}

/// The cursor shape that goes with a mode.
pub open spec fn shape_of(mode: Mode) -> CursorShape {
    match mode {
        Mode::Pending => CursorShape::SteadyUnderScore,
        Mode::Insert => CursorShape::BlinkingBar,
        _ => CursorShape::SteadyBlock,
    }
}

/// `s` up to the last space of what is left of it without its trailing
/// whitespace; nothing where that holds no space.
pub open spec fn without_last_word(s: Seq<char>) -> Seq<char> {
    let end = trailing_blank_start(s, s.len() as int);
    let i = last_index_of(s.subrange(0, end), ' ');
    if i < 0 {
        Seq::empty()
    } else {
        s.subrange(0, i)
    }
}

/// Undo after a push brings back the text that was pushed, character for
/// character, and the cursor that was pushed with it, whatever was edited in
/// between.
pub proof fn lemma_undo_after_push_restores(
    h: History,
    text: Seq<char>,
    x: usize,
    y: usize,
    edited: AppState,
)
    requires
        h.wf(),
        edited.history == h.pushed(text, x, y),
    ensures
        edited.undo().lines == split_lines(text),
        join_lines(edited.undo().lines) == text,
        edited.undo().x == x as u16,
        edited.undo().y == y as u16,
{
    lemma_join_split(text);
    crate::undo_stack::lemma_undo_after_push(h, text, x, y);
}

/// Undo after a buffer was recorded brings that buffer back line for line,
/// and the cursor that was recorded with it, whatever was edited in
/// between. Redo after that undo hands out the same buffer and leaves the
/// history as it was before the undo.
pub proof fn lemma_undo_restores(s: AppState, lines: Seq<Seq<char>>, edited: AppState)
    requires
        s.history.wf(),
        well_formed_lines(lines),
        edited.history == s.record(lines).history,
    ensures
        edited.undo().lines == lines,
        edited.undo().x == s.x,
        edited.undo().y == s.y,
        edited.undo().redo().lines == lines,
        edited.undo().redo().history == edited.history,
{
    lemma_split_join(lines);
    crate::undo_stack::lemma_undo_after_push(
        s.history,
        join_lines(lines),
        s.x as usize,
        s.y as usize,
    );
    crate::undo_stack::lemma_redo_after_undo(edited.history);
}

impl AppState {
    /// Line `row`; empty where the buffer has no such line.
    pub open spec fn line(self, row: int) -> Seq<char> {
        if valid_row(self.lines, row) {
            self.lines[row - 1]
        } else {
            Seq::empty()
        }
    }

    /// The absolute path of the current directory, under which its buffer is
    /// kept.
    pub open spec fn dir(self) -> Seq<char> {
        absolute_path_of(self.base, self.current)
    }

    pub open spec fn set_mode(self, mode: Mode) -> AppState {
        AppState { mode, cursor_shape: shape_of(mode), ..self }
    }

    pub open spec fn up(self) -> AppState {
        AppState {
            y: if self.y > 1 {
                (self.y - 1) as u16
            } else {
                self.y
            },
            ..self
        }
    }

    pub open spec fn down(self) -> AppState {
        AppState { y: capped_sum(self.y, 1), ..self }
    }

    pub open spec fn left(self) -> AppState {
        AppState {
            x: if self.x > 1 {
                (self.x - 1) as u16
            } else {
                self.x
            },
            ..self
        }
    }

    /// One column right, wherever that leads.
    pub open spec fn right(self) -> AppState {
        AppState { x: capped_sum(self.x, 1), ..self }
    }

    /// `text` put in before `(x, y)`. The directory buffer follows: the entry
    /// of the line is renamed, a line without an entry that held nothing but
    /// whitespace becomes a file that waits to be created, and lines that
    /// come in are added.
    pub open spec fn insert(self, x: int, y: int, text: Seq<char>) -> AppState {
        if valid_position(self.lines, x, y) {
            let before = self.lines[y - 1];
            AppState {
                lines: inserted(self.lines, x, y, text),
                views: view_bound(
                    self.views,
                    self.dir(),
                    before,
                    split_lines(line_with(before, x, text)),
                ),
                ..self
            }
        } else {
            self
        }
    }

    /// The `length` characters from `(x, y)` on taken out. The directory
    /// buffer follows: the entry of the line is renamed.
    pub open spec fn delete_range(self, x: int, y: int, length: int) -> AppState {
        if on_character(self.lines, x, y) && length >= 0 {
            let before = self.lines[y - 1];
            AppState {
                lines: range_deleted(self.lines, x, y, length),
                views: view_renamed(
                    self.views,
                    self.dir(),
                    before,
                    line_without(before, x, length),
                ),
                ..self
            }
        } else {
            self
        }
    }

    pub open spec fn delete_at(self, x: int, y: int) -> AppState {
        self.delete_range(x, y, 1)
    }

    /// The rest of the word under `(x, y)` taken out, or the one character
    /// there where it is no word character.
    pub open spec fn delete_word(self, x: int, y: int) -> AppState {
        if on_character(self.lines, x, y) {
            self.delete_range(x, y, word_end(self.lines[y - 1], x, false) - x)
        } else {
            self
        }
    }

    /// Line `y` emptied. The directory buffer is left alone.
    pub open spec fn delete_line(self, y: int) -> AppState {
        AppState { lines: line_cleared(self.lines, y), ..self }
    }

    /// Line `y` taken out. The directory buffer is left alone.
    pub open spec fn delete_line_full(self, y: int) -> AppState {
        AppState { lines: line_removed(self.lines, y), ..self }
    }

    /// Line `second` appended to line `first`, whose entry is renamed.
    pub open spec fn merge(self, first: int, second: int) -> AppState {
        if valid_row(self.lines, first) && valid_row(self.lines, second) && first != second {
            let before = self.lines[first - 1];
            AppState {
                lines: lines_merged(self.lines, first, second),
                views: view_renamed(
                    self.views,
                    self.dir(),
                    before,
                    before + self.lines[second - 1],
                ),
                ..self
            }
        } else {
            self
        }
    }

    /// The cursor on the last character of its line.
    pub open spec fn move_max_x(self) -> AppState {
        AppState { x: last_column(self.line(self.y as int).len() as int), ..self }
    }

    /// The cursor on the last line.
    pub open spec fn move_max_y(self) -> AppState {
        AppState { y: cap16(self.lines.len() as int), ..self }
    }

    /// The text of the line under the cursor; nothing where the cursor stands
    /// past the lines or past the characters of its line.
    pub open spec fn hovered(self) -> Seq<char> {
        let row = if self.y < 1 {
            1
        } else {
            self.y as int
        };
        if !valid_row(self.lines, row) || self.x > self.lines[row - 1].len() {
            Seq::empty()
        } else {
            self.lines[row - 1]
        }
    }

    /// The buffer cut off before its last word.
    pub open spec fn pop_word(self) -> AppState {
        AppState { lines: split_lines(without_last_word(join_lines(self.lines))), ..self }
    }

    /// An empty line appended to the buffer.
    pub open spec fn append_linebreak(self) -> AppState {
        AppState { lines: self.lines.push(Seq::empty()), ..self }
    }

    /// One step back in the history: the buffer and the cursor recorded
    /// there come back. The cursor takes the low 16 bits of what was
    /// recorded.
    pub open spec fn undo(self) -> AppState {
        match self.history.undo_result() {
            Some(text) => {
                let history = self.history.undone();
                match history.pointers() {
                    Some((x, y)) => AppState {
                        lines: split_lines(text),
                        history,
                        x: x as u16,
                        y: y as u16,
                        ..self
                    },
                    None => AppState { lines: split_lines(text), history, ..self },
                }
            },
            None => self,
        }
    }

    /// One step forward in the history.
    pub open spec fn redo(self) -> AppState {
        match self.history.redo_result() {
            Some(text) => AppState {
                lines: split_lines(text),
                history: self.history.redone(),
                ..self
            },
            None => self,
        }
    }

    /// Asks for confirmation where changes are pending.
    pub open spec fn save(self) -> AppState {
        if storage_pending(self.views) {
            AppState { need_confirmation: true, ..self }
        } else {
            self
        }
    }

    /// The buffer content recorded in the history, with the cursor as it
    /// stands.
    pub open spec fn record(self, lines: Seq<Seq<char>>) -> AppState {
        AppState {
            history: self.history.pushed(join_lines(lines), self.x as usize, self.y as usize),
            ..self
        }
    }

    /// The relative path after an attempt to change into `line`, where
    /// `present` says that the path this leads to exists.
    pub open spec fn path_after(self, line: Seq<char>, present: bool) -> Seq<char> {
        if present && self.dir().len() > 0 {
            cd_target(self.current, line)
        } else {
            self.current
        }
    }

    /// The session after an attempt to change into `line`, where `present`
    /// says that the path this leads to exists and `listing` is what
    /// listing the directory there gave, `None` where it could not be
    /// listed. The session stands in the directory this leads to if that
    /// exists, and where it was if not. A directory that is not kept yet is
    /// kept with its listing. Where it could not be listed, the change does
    /// not take place: the session is as it was.
    pub open spec fn enter(
        self,
        line: Seq<char>,
        present: bool,
        listing: Option<Seq<Listed>>,
    ) -> AppState {
        let current = self.path_after(line, present);
        let dir = absolute_path_of(self.base, current);
        if has_view(self.views, dir) {
            AppState { current, ..self }
        } else {
            match listing {
                Some(items) => AppState {
                    current,
                    views: self.views.push(
                        (
                            dir,
                            Directory {
                                dir: resolved_dir(dir, self.base),
                                files: entries_of_listing(items, resolved_dir(dir, self.base)),
                            },
                        ),
                    ),
                    ..self
                },
                None => self,
            }
        }
    }

    /// The word under the cursor: the columns from `0` up to `1`, which is
    /// an empty range where the cursor is on no word character.
    pub open spec fn inner_word(self) -> (int, int) {
        let line = self.line(self.y as int);
        (word_run_before(line, self.x as int) + 1, word_run_end(line, self.x as int))
    }
}

} // verus!
