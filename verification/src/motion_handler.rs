//! The commands of normal mode. Each is stated as a function on the model of
//! the session, and the executable command is proved to compute it.

use crate::app::{to_u16, App};
use crate::buffer_storage::{view_pasted, view_with_state, State};
use crate::cursor::{capped_sum, word_column};
use crate::model::{cap16, clamp_column, last_column, AppState, Mode};
use crate::text::{
    concat, get_start_x, is_word_at, lemma_word_run_before_bounds, lemma_word_run_end_bounds,
    seek_special_character_backward, substring, trim, trimmed, word_end, word_run_before,
    word_run_end, word_run_length, word_start,
};
use crate::text_buffer::{on_character, valid_row};
use crate::yank_buffer::YankType;
use vstd::prelude::*;
use vstd::string::*;

verus! {

/// Delete the line under the cursor. The line goes to the register, its
/// entry is marked as deleted, and the cursor stays on the row, or moves up
/// where the last line went.
pub open spec fn after_dd(s: AppState) -> AppState {
    let row = s.y as int;
    if !valid_row(s.lines, row) {
        s
    } else {
        let line = s.lines[row - 1];
        let cut = s.delete_line_full(row);
        let moved = if row == s.lines.len() {
            AppState { x: 1, ..cut.up() }
        } else {
            AppState { x: clamp_column(cut.x, cut.line(row).len() as int), ..cut }
        };
        AppState {
            yank: line,
            yank_type: YankType::Line,
            views: view_with_state(moved.views, s.dir(), trimmed(line), State::Deleted),
            ..moved
        }
    }
}

/// Change the line under the cursor: it is emptied and goes to the register,
/// its entry is marked as deleted, and insert mode begins at column 1.
pub open spec fn after_cc(s: AppState) -> AppState {
    let row = s.y as int;
    if !valid_row(s.lines, row) {
        s
    } else {
        let line = s.lines[row - 1];
        let cut = s.delete_line(row);
        AppState {
            x: 1,
            yank: line,
            yank_type: YankType::Line,
            views: view_with_state(cut.views, s.dir(), trimmed(line), State::Deleted),
            ..cut
        }.set_mode(Mode::Insert)
    }
}

/// Delete the rest of the word under the cursor. What was deleted goes to
/// the register, and the entry of the line is renamed.
pub open spec fn after_dw(s: AppState) -> AppState {
    let row = s.y as int;
    let col = s.x as int;
    if !on_character(s.lines, col, row) {
        s
    } else {
        let line = s.lines[row - 1];
        let length = word_end(line, col, false) - col;
        let cut = s.delete_range(col, row, length);
        AppState {
            x: clamp_column(s.x, cut.line(row).len() as int),
            yank: line.subrange(col - 1, col - 1 + length),
            yank_type: YankType::Word,
            ..cut
        }
    }
}

/// Change the rest of the word under the cursor: it is deleted, and insert
/// mode begins.
pub open spec fn after_cw(s: AppState) -> AppState {
    s.delete_word(s.x as int, s.y as int).set_mode(Mode::Insert)
}

/// Insert before the cursor.
pub open spec fn after_i(s: AppState) -> AppState {
    AppState {
        x: if s.x == 0 {
            1
        } else {
            s.x
        },
        ..s
    }.set_mode(Mode::Insert)
}

/// Insert at the start of the line.
#[allow(non_snake_case)]
pub open spec fn after_I(s: AppState) -> AppState {
    after_i(AppState { x: 1, ..s })
}

/// Insert after the cursor: one column to the right, but no further than
/// the end of the line.
pub open spec fn after_a(s: AppState) -> AppState {
    let x: u16 = if s.x == 0 {
        1
    } else {
        s.x
    };
    AppState {
        x: if x <= s.line(s.y as int).len() {
            capped_sum(x, 1)
        } else {
            x
        },
        ..s
    }.set_mode(Mode::Insert)
}

/// Insert at the end of the line.
#[allow(non_snake_case)]
pub open spec fn after_A(s: AppState) -> AppState {
    after_a(s.move_max_x())
}

/// Open an empty line below the cursor and insert there.
pub open spec fn after_o(s: AppState) -> AppState {
    let row = s.y as int;
    let put = s.insert(s.line(row).len() as int + 1, row, seq!['\n']);
    AppState { x: 1, ..put.down() }.set_mode(Mode::Insert)
}

/// Open an empty line above the cursor and insert there.
#[allow(non_snake_case)]
pub open spec fn after_O(s: AppState) -> AppState {
    let put = s.insert(1, s.y as int, seq!['\n']);
    AppState { x: 1, ..put }.set_mode(Mode::Insert)
}

/// One line down, the column brought into the line reached. Nothing happens
/// on the last line.
pub open spec fn after_j(s: AppState) -> AppState {
    let row = s.y as int;
    if valid_row(s.lines, row) && row < s.lines.len() {
        AppState { x: clamp_column(s.x, s.line(row + 1).len() as int), ..s.down() }
    } else {
        s
    }
}

/// One line up, the column brought into the line reached. Nothing happens on
/// the first line.
pub open spec fn after_k(s: AppState) -> AppState {
    if s.y > 1 {
        AppState { x: clamp_column(s.x, s.line(s.y - 1).len() as int), ..s.up() }
    } else {
        s
    }
}

/// One column right, but not past the last character of the line.
pub open spec fn after_l(s: AppState) -> AppState {
    if s.x + 1 <= s.line(s.y as int).len() {
        s.right()
    } else {
        s
    }
}

/// To the last character of the line.
pub open spec fn after_dollar_sign(s: AppState) -> AppState {
    s.move_max_x()
}

/// To the first line, the column brought into it.
pub open spec fn after_gg(s: AppState) -> AppState {
    AppState { x: clamp_column(s.x, s.line(1).len() as int), y: 1, ..s }
}

/// To the first column of the last line.
#[allow(non_snake_case)]
pub open spec fn after_G(s: AppState) -> AppState {
    AppState { x: 1, y: cap16(s.lines.len() as int), ..s }
}

/// One word forward: past the word under the cursor and one column more.
/// Where the word reaches the end of the line, to the start of the next
/// line; on the last line, to the last character.
pub open spec fn after_w(s: AppState) -> AppState {
    let line = s.line(s.y as int);
    let len = line.len() as int;
    if word_end(line, s.x as int, false) > len && s.y < s.lines.len() {
        AppState { x: 1, ..s.down() }
    } else {
        AppState { x: word_column(word_end(line, s.x as int, true), len), ..s }
    }
}

/// One word back: to the start of the word before the cursor. From column 1,
/// to the end of the line above.
pub open spec fn after_b(s: AppState) -> AppState {
    if s.x <= 1 && s.y > 1 {
        let up = s.up();
        AppState { x: last_column(up.line(up.y as int).len() as int), ..up }
    } else {
        let line = s.line(s.y as int);
        AppState { x: word_column(word_start(line, s.x as int), line.len() as int), ..s }
    }
}

/// Delete the character under the cursor.
pub open spec fn after_x(s: AppState) -> AppState {
    let cut = s.delete_at(s.x as int, s.y as int);
    if cut.x > cut.line(cut.y as int).len() {
        cut.left()
    } else {
        cut
    }
}

/// Delete the character under the cursor and insert.
pub open spec fn after_s(s: AppState) -> AppState {
    after_x(s).set_mode(Mode::Insert)
}

pub open spec fn after_cj(s: AppState) -> AppState {
    after_cc(after_dd(s))
}

pub open spec fn after_ck(s: AppState) -> AppState {
    after_cc(after_dd(s).up())
}

pub open spec fn after_dj(s: AppState) -> AppState {
    after_dd(after_dd(s))
}

pub open spec fn after_dk(s: AppState) -> AppState {
    after_dd(after_dd(s).up())
}

/// Delete the word under the cursor, all of it. It goes to the register, the
/// entry of the line is renamed, and the cursor stands where the word began.
/// Nothing happens where the cursor is on no word character.
pub open spec fn after_diw(s: AppState) -> AppState {
    let row = s.y as int;
    let line = s.line(row);
    if !is_word_at(line, s.x as int) {
        s
    } else {
        let (from, to) = s.inner_word();
        let cut = s.delete_range(from, row, to - from);
        AppState {
            x: cap16(from),
            yank: line.subrange(from - 1, to - 1),
            yank_type: YankType::Word,
            ..cut
        }
    }
}

pub open spec fn after_ciw(s: AppState) -> AppState {
    after_diw(s).set_mode(Mode::Insert)
}

pub open spec fn after_u(s: AppState) -> AppState {
    s.undo()
}

/// Copy the line under the cursor to the register.
pub open spec fn after_yy(s: AppState) -> AppState {
    AppState { yank: s.line(s.y as int), yank_type: YankType::Line, ..s }
}

/// Copy the word under the cursor to the register and move to its start.
/// Nothing happens where the cursor is on no word character.
pub open spec fn after_yiw(s: AppState) -> AppState {
    let line = s.line(s.y as int);
    if !is_word_at(line, s.x as int) {
        s
    } else {
        let (from, to) = s.inner_word();
        AppState {
            x: cap16(from),
            yank: line.subrange(from - 1, to - 1),
            yank_type: YankType::Word,
            ..s
        }
    }
}

/// What the register holds, put in at the cursor without a record in the
/// history: its length further right.
pub open spec fn pasted_inline(s: AppState) -> AppState {
    let put = s.insert(s.x as int, s.y as int, s.yank);
    AppState { x: cap16(s.x + s.yank.len()), ..put }
}

/// Paste after the cursor. A line goes in below the line of the cursor,
/// which moves there, and its entry counts as put back; anything else goes
/// in at the cursor. The buffer as it was is recorded in the history.
pub open spec fn after_p(s: AppState) -> AppState {
    let row = s.y as int;
    let edited = match s.yank_type {
        YankType::Line => {
            let put = s.insert(s.line(row).len() as int + 1, row, seq!['\n'] + s.yank);
            AppState {
                x: 1,
                views: view_pasted(put.views, s.dir(), trimmed(s.yank)),
                ..put.down()
            }
        },
        _ => pasted_inline(s),
    };
    edited.record(s.lines)
}

/// Paste before the cursor. A line goes in above the line of the cursor,
/// and its entry counts as put back; anything else goes in at the cursor.
/// The buffer as it was is recorded in the history.
#[allow(non_snake_case)]
pub open spec fn after_P(s: AppState) -> AppState {
    let edited = match s.yank_type {
        YankType::Line => {
            let put = s.insert(1, s.y as int, s.yank + seq!['\n']);
            AppState { x: 1, views: view_pasted(put.views, s.dir(), trimmed(s.yank)), ..put }
        },
        _ => pasted_inline(s),
    };
    edited.record(s.lines)
}

/// Column `x` brought into a line of `len` characters.
fn clamped(x: u16, len: usize) -> (r: u16)
    ensures
        r == clamp_column(x, len as int),
{
    let last: u16 = if len < 1 {
        1
    } else {
        to_u16(len)
    };
    if x < 1 {
        1
    } else if x > last {
        last
    } else {
        x
    }
}

/// Carries out [`after_dd`].
pub fn dd(app: &mut App)
    ensures
        final(app)@ == after_dd(old(app)@),
{
    let row: usize = app.cursor.y as usize;
    let line = match app.buffer_content.line(row) {
        Some(line) => line,
        None => {
            return ;
        },
    };
    let count: usize = app.get_line_count();
    app.delete_line_full(app.cursor.y);
    if row == count {
        app.cursor.up();
        app.cursor.reset_x();
    } else {
        app.cursor.x = clamped(app.cursor.x, app.line_length_or_zero(row));
    }
    let name = trim(line.as_str());
    app.yank_buffer.set_content(line);
    app.yank_buffer.set_yank_type(YankType::Line);
    let dir = app.path.get_absolute_path();
    app.buffer_storage.set_state(dir.as_str(), name.as_str(), State::Deleted);
}

/// Carries out [`after_cc`].
pub fn cc(app: &mut App)
    ensures
        final(app)@ == after_cc(old(app)@),
{
    let row: usize = app.cursor.y as usize;
    let line = match app.buffer_content.line(row) {
        Some(line) => line,
        None => {
            return ;
        },
    };
    app.delete_line(app.cursor.y);
    app.cursor.reset_x();
    let name = trim(line.as_str());
    app.yank_buffer.set_content(line);
    app.yank_buffer.set_yank_type(YankType::Line);
    app.set_mode(Mode::Insert);
    let dir = app.path.get_absolute_path();
    app.buffer_storage.set_state(dir.as_str(), name.as_str(), State::Deleted);
}

/// Carries out [`after_dw`].
pub fn dw(app: &mut App)
    ensures
        final(app)@ == after_dw(old(app)@),
{
    let row: usize = app.cursor.y as usize;
    let col: usize = app.cursor.x as usize;
    let line = match app.buffer_content.line(row) {
        Some(line) => line,
        None => {
            return ;
        },
    };
    if col < 1 || col > line.as_str().unicode_len() {
        return ;
    }
    let length: usize = if line.as_str().get_char(col - 1).is_alphanumeric() {
        word_run_length(line.as_str(), col)
    } else {
        1
    };
    let word = substring(line.as_str(), col - 1, col - 1 + length);
    app.delete_chars(col, row, length);
    app.cursor.x = clamped(app.cursor.x, app.line_length_or_zero(row));
    app.yank_buffer.set_content(word);
    app.yank_buffer.set_yank_type(YankType::Word);
}

/// Carries out [`after_cw`].
pub fn cw(app: &mut App)
    ensures
        final(app)@ == after_cw(old(app)@),
{
    app.delete_word(app.cursor.x, app.cursor.y);
    app.set_mode(Mode::Insert);
}

/// Carries out [`after_i`].
pub fn i(app: &mut App)
    ensures
        final(app)@ == after_i(old(app)@),
{
    if app.cursor.x == 0 {
        app.cursor.x = 1;
    }
    app.set_mode(Mode::Insert);
}

/// Carries out [`after_I`].
#[allow(non_snake_case)]
pub fn I(app: &mut App)
    ensures
        final(app)@ == after_I(old(app)@),
{
    app.cursor.reset_x();
    i(app);
}

/// Carries out [`after_a`].
pub fn a(app: &mut App)
    ensures
        final(app)@ == after_a(old(app)@),
{
    if app.cursor.x == 0 {
        app.cursor.x = 1;
    }
    let len: usize = app.line_length_or_zero(app.cursor.y as usize);
    if app.cursor.x as usize <= len {
        app.cursor.right(0);
    }
    app.set_mode(Mode::Insert);
}

/// Carries out [`after_A`].
#[allow(non_snake_case)]
pub fn A(app: &mut App)
    ensures
        final(app)@ == after_A(old(app)@),
{
    app.move_max_x();
    a(app);
}

/// Carries out [`after_o`].
pub fn o(app: &mut App)
    ensures
        final(app)@ == after_o(old(app)@),
{
    let row: usize = app.cursor.y as usize;
    let len: usize = app.line_length_or_zero(row);
    proof {
        reveal_strlit("\n");
        assert("\n"@ =~= seq!['\n']);
    }
    app.insert_after(len, row, "\n");
    app.cursor.down();
    app.cursor.reset_x();
    app.set_mode(Mode::Insert);
}

/// Carries out [`after_O`].
#[allow(non_snake_case)]
pub fn O(app: &mut App)
    ensures
        final(app)@ == after_O(old(app)@),
{
    proof {
        reveal_strlit("\n");
        assert("\n"@ =~= seq!['\n']);
    }
    app.insert_text(1, app.cursor.y as usize, "\n");
    app.cursor.reset_x();
    app.set_mode(Mode::Insert);
}

/// Carries out [`after_j`].
pub fn j(app: &mut App)
    ensures
        final(app)@ == after_j(old(app)@),
{
    let row: usize = app.cursor.y as usize;
    let count: usize = app.get_line_count();
    if row < 1 || row >= count {
        return ;
    }
    app.cursor.x = clamped(app.cursor.x, app.line_length_or_zero(row + 1));
    app.cursor.down();
}

/// Carries out [`after_k`].
pub fn k(app: &mut App)
    ensures
        final(app)@ == after_k(old(app)@),
{
    if app.cursor.y <= 1 {
        return ;
    }
    app.cursor.x = clamped(app.cursor.x, app.line_length_or_zero(app.cursor.y as usize - 1));
    app.cursor.up();
}

/// Carries out [`after_l`].
pub fn l(app: &mut App)
    ensures
        final(app)@ == after_l(old(app)@),
{
    let len: usize = app.line_length_or_zero(app.cursor.y as usize);
    if (app.cursor.x as usize) < len {
        app.cursor.right(0);
    }
}

/// Carries out [`after_dollar_sign`].
pub fn dollar_sign(app: &mut App)
    ensures
        final(app)@ == after_dollar_sign(old(app)@),
{
    app.move_max_x();
}

/// Carries out [`after_gg`].
pub fn gg(app: &mut App)
    ensures
        final(app)@ == after_gg(old(app)@),
{
    app.cursor.reset_y();
    app.cursor.x = clamped(app.cursor.x, app.line_length_or_zero(1));
}

/// Carries out [`after_G`].
#[allow(non_snake_case)]
pub fn G(app: &mut App)
    ensures
        final(app)@ == after_G(old(app)@),
{
    app.cursor.y = to_u16(app.get_line_count());
    app.cursor.x = 1;
}

/// Carries out [`after_w`].
pub fn w(app: &mut App)
    ensures
        final(app)@ == after_w(old(app)@),
{
    let line = app.line_or_empty(app.cursor.y as usize);
    let len: usize = line.as_str().unicode_len();
    let x: usize = app.cursor.x as usize;
    // `past` is the number of characters before the column that `w` without
    // the extra step would reach
    let past: usize = if x >= 1 && x <= len && line.as_str().get_char(x - 1).is_alphanumeric() {
        x - 1 + word_run_length(line.as_str(), x)
    } else {
        x
    };
    if past >= len && (app.cursor.y as usize) < app.get_line_count() {
        app.cursor.down();
        app.cursor.reset_x();
    } else {
        let word: bool = x >= 1 && x <= len && line.as_str().get_char(x - 1).is_alphanumeric();
        let new_x: usize = if !word {
            x + 1
        } else if len - past < 2 {
            len
        } else {
            past + 2
        };
        app.cursor.move_word(line.as_str(), new_x);
    }
}

/// Carries out [`after_b`].
pub fn b(app: &mut App)
    ensures
        final(app)@ == after_b(old(app)@),
{
    if app.cursor.x <= 1 && app.cursor.y > 1 {
        app.cursor.up();
        app.move_max_x();
    } else {
        let line = app.line_or_empty(app.cursor.y as usize);
        let new_x: usize = get_start_x(line.as_str(), app.cursor.x as usize);
        app.cursor.move_word(line.as_str(), new_x);
    }
}

/// Carries out [`after_x`].
pub fn x(app: &mut App)
    ensures
        final(app)@ == after_x(old(app)@),
{
    app.delete_at(app.cursor.x, app.cursor.y);
    if app.cursor.x as usize > app.line_length_or_zero(app.cursor.y as usize) {
        app.cursor.left();
    }
}

/// Carries out [`after_s`].
pub fn s(app: &mut App)
    ensures
        final(app)@ == after_s(old(app)@),
{
    x(app);
    app.set_mode(Mode::Insert);
}

/// Carries out [`after_cj`].
pub fn cj(app: &mut App)
    ensures
        final(app)@ == after_cj(old(app)@),
{
    dd(app);
    cc(app);
}

/// Carries out [`after_ck`].
pub fn ck(app: &mut App)
    ensures
        final(app)@ == after_ck(old(app)@),
{
    dd(app);
    app.cursor.up();
    cc(app);
}

/// Carries out [`after_dj`].
pub fn dj(app: &mut App)
    ensures
        final(app)@ == after_dj(old(app)@),
{
    dd(app);
    dd(app);
}

/// Carries out [`after_dk`].
pub fn dk(app: &mut App)
    ensures
        final(app)@ == after_dk(old(app)@),
{
    dd(app);
    app.cursor.up();
    dd(app);
}

/// The first column of the word under column `col` of `line`, and its
/// length.
fn inner_word(line: &str, col: usize) -> (r: (usize, usize))
    requires
        is_word_at(line@, col as int),
    ensures
        r.0 == word_run_before(line@, col as int) + 1,
        r.0 + r.1 == word_run_end(line@, col as int),
        1 <= r.0 <= col,
        r.0 - 1 + r.1 <= line@.len(),
{
    proof {
        lemma_word_run_before_bounds(line@, col - 1);
        lemma_word_run_end_bounds(line@, col as int);
    }
    let len: usize = line.unicode_len();
    let from: usize = seek_special_character_backward(line, col);
    let rest: usize = word_run_length(line, col);
    assert(col - 1 + rest <= len);
    (from, (col - 1 + rest) - (from - 1))
}

/// Carries out [`after_diw`].
pub fn diw(app: &mut App)
    ensures
        final(app)@ == after_diw(old(app)@),
{
    let row: usize = app.cursor.y as usize;
    let col: usize = app.cursor.x as usize;
    let line = app.line_or_empty(row);
    if col < 1 || col > line.as_str().unicode_len() || !line.as_str().get_char(
        col - 1,
    ).is_alphanumeric() {
        return ;
    }
    let (from, length) = inner_word(line.as_str(), col);
    let word = substring(line.as_str(), from - 1, from - 1 + length);
    app.delete_chars(from, row, length);
    app.cursor.x = to_u16(from);
    app.yank_buffer.set_content(word);
    app.yank_buffer.set_yank_type(YankType::Word);
}

/// Carries out [`after_ciw`].
pub fn ciw(app: &mut App)
    ensures
        final(app)@ == after_ciw(old(app)@),
{
    diw(app);
    app.set_mode(Mode::Insert);
}

/// Carries out [`after_u`].
pub fn u(app: &mut App)
    ensures
        final(app)@ == after_u(old(app)@),
{
    app.undo();
}

/// Carries out [`after_yy`].
pub fn yy(app: &mut App)
    ensures
        final(app)@ == after_yy(old(app)@),
{
    let line = app.line_or_empty(app.cursor.y as usize);
    app.yank_buffer.set_content(line);
    app.yank_buffer.set_yank_type(YankType::Line);
}

/// Carries out [`after_yiw`].
pub fn yiw(app: &mut App)
    ensures
        final(app)@ == after_yiw(old(app)@),
{
    let col: usize = app.cursor.x as usize;
    let line = app.line_or_empty(app.cursor.y as usize);
    if col < 1 || col > line.as_str().unicode_len() || !line.as_str().get_char(
        col - 1,
    ).is_alphanumeric() {
        return ;
    }
    let (from, length) = inner_word(line.as_str(), col);
    let word = substring(line.as_str(), from - 1, from - 1 + length);
    app.cursor.x = to_u16(from);
    app.yank_buffer.set_content(word);
    app.yank_buffer.set_yank_type(YankType::Word);
}

/// Puts what the register holds in at the cursor and moves the cursor its
/// length further right.
fn paste_inline(app: &mut App)
    ensures
        final(app)@ == pasted_inline(old(app)@),
{
    let content = app.yank_buffer.content.clone();
    let width: usize = content.as_str().unicode_len();
    app.insert_at(app.cursor.x, app.cursor.y, content.as_str());
    let x: usize = app.cursor.x as usize;
    app.cursor.x = if width > 65535 - x {
        u16::MAX
    } else {
        (x + width) as u16
    };
}

/// Carries out [`after_p`].
pub fn p(app: &mut App)
    ensures
        final(app)@ == after_p(old(app)@),
{
    let before = app.buffer_content.duplicate();
    match app.yank_buffer.yank_type {
        YankType::Line => {
            let row: usize = app.cursor.y as usize;
            let len: usize = app.line_length_or_zero(row);
            let content = app.yank_buffer.content.clone();
            proof {
                reveal_strlit("\n");
                assert("\n"@ =~= seq!['\n']);
            }
            let text = concat("\n", content.as_str());
            let dir = app.path.get_absolute_path();
            app.insert_after(len, row, text.as_str());
            app.cursor.down();
            app.cursor.reset_x();
            let name = trim(content.as_str());
            app.buffer_storage.paste(dir.as_str(), name.as_str());
        },
        _ => {
            paste_inline(app);
        },
    }
    app.record(&before);
}

/// Carries out [`after_P`].
#[allow(non_snake_case)]
pub fn P(app: &mut App)
    ensures
        final(app)@ == after_P(old(app)@),
{
    let before = app.buffer_content.duplicate();
    match app.yank_buffer.yank_type {
        YankType::Line => {
            let content = app.yank_buffer.content.clone();
            proof {
                reveal_strlit("\n");
                assert("\n"@ =~= seq!['\n']);
            }
            let text = concat(content.as_str(), "\n");
            let dir = app.path.get_absolute_path();
            app.insert_text(1, app.cursor.y as usize, text.as_str());
            app.cursor.reset_x();
            let name = trim(content.as_str());
            app.buffer_storage.paste(dir.as_str(), name.as_str());
        },
        _ => {
            paste_inline(app);
        },
    }
    app.record(&before);
}

} // verus!
