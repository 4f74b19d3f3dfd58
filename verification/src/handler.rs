//! The modal engine: what each key does in each mode. A key press changes
//! the session and may ask the program around it for something: to open a
//! directory, or to carry out the confirmed changes.

use crate::app::App;
use crate::buffer_storage::{all_committed, all_reverted};
use crate::input_buffer::{is_command, is_initializer_key, settled};
use crate::model::{cap16, AppState, Effect, Key, KeyCode, Mode};
use crate::motion_handler::{
    a, after_A, after_G, after_I, after_O, after_P, after_a, after_b, after_cc, after_ciw, after_cj,
    after_ck, after_cw, after_dd, after_diw, after_dj, after_dk, after_dollar_sign, after_dw,
    after_gg, after_i, after_j, after_k, after_l, after_o, after_p, after_s, after_u, after_w,
    after_x, after_yiw, after_yy, b, cc, ciw, cj, ck, cw, dd, diw, dj, dk, dollar_sign, dw, gg, i,
    j, k, l, o, p, s, u, w, x, yiw, yy, A, G, I, O, P,
};
use crate::reconcile::{operations_view, plan, reconciliation_plan, FsOperation};
use crate::text::{concat, is_alphanumeric_char, str_eq, substring};
use crate::text_buffer::valid_row;
use vstd::prelude::*;
use vstd::string::*;

verus! {

/// A key press: the key, and the text that the terminal library gives for
/// it. For a character key that is the character, except that the space bar
/// is spelled out.
#[derive(Debug)]
pub struct KeyEvent {
    pub code: KeyCode,
    pub text: String,
}

impl View for KeyEvent {
    type V = Key;

    open spec fn view(&self) -> Key {
        Key { code: self.code, text: self.text@ }
    }
}

impl KeyEvent {
    pub fn new(code: KeyCode, text: String) -> (r: Self)
        ensures
            r@ == (Key { code, text: text@ }),
    {
        KeyEvent { code, text }
    }
}

/// What a key press asks of the program around the editor.
#[derive(Debug)]
pub enum Action {
    Nothing,
    /// Change into the directory that the line names, list it, and hand the
    /// listing back.
    Open(String),
    /// Carry the operations out, each on its own: one that fails does not
    /// keep the others from running.
    Reconcile(Vec<FsOperation>),
}

impl View for Action {
    type V = Effect;

    open spec fn view(&self) -> Effect {
        match *self {
            Action::Nothing => Effect::Nothing,
            Action::Open(line) => Effect::Open(line@),
            Action::Reconcile(ops) => Effect::Reconcile(operations_view(ops@)),
        }
    }
}

/// What a complete compound command does.
#[verifier::opaque]
pub open spec fn run_command(s: AppState, command: Seq<char>) -> AppState {
    if command == seq!['g', 'g'] {
        after_gg(s)
    } else if command == seq!['c', 'j'] {
        after_cj(s)
    } else if command == seq!['c', 'k'] {
        after_ck(s)
    } else if command == seq!['d', 'j'] {
        after_dj(s)
    } else if command == seq!['d', 'k'] {
        after_dk(s)
    } else if command == seq!['d', 'd'] {
        after_dd(s)
    } else if command == seq!['c', 'c'] {
        after_cc(s)
    } else if command == seq!['d', 'w'] {
        after_dw(s)
    } else if command == seq!['c', 'w'] {
        after_cw(s)
    } else if command == seq!['y', 'y'] {
        after_yy(s)
    } else if command == seq!['y', 'i', 'w'] {
        after_yiw(s)
    } else if command == seq!['c', 'i', 'w'] {
        after_ciw(s)
    } else if command == seq!['d', 'i', 'w'] {
        after_diw(s)
    } else {
        s
    }
}

/// A key of a compound command. A key whose text is not one character does
/// nothing. Any other key joins the pending keys; three keys that are no
/// command are dropped. Keys that are a command are carried out, on
/// whichever row the cursor stands, and dropped; until then the session waits in
/// pending mode. A command that changed the buffer records the buffer as it
/// was in the history.
pub open spec fn compound(s: AppState, key: Key) -> AppState {
    if key.text.len() != 1 {
        s
    } else {
        let typed = s.keys + key.text;
        let keys = settled(typed, is_command(typed));
        let done = if is_command(keys) {
            let ready = AppState { keys, ..s }.set_mode(Mode::Normal);
            AppState { keys: Seq::empty(), ..run_command(ready, keys) }
        } else {
            AppState { keys, ..s }.set_mode(Mode::Pending)
        };
        if done.lines != s.lines {
            done.record(s.lines)
        } else {
            done
        }
    }
}

/// A compound command never holds more than two keys between key presses:
/// the key that makes three either completes a command, which is carried
/// out and dropped, or makes the keys invalid, which drops them.
pub proof fn lemma_pending_keys_bounded(s: AppState, key: Key)
    ensures
        key.text.len() == 1 ==> compound(s, key).keys.len() <= 2,
        key.text.len() == 1 && is_command(s.keys + key.text) ==> compound(s, key).keys.len() == 0,
{
}

/// Escape out of a mode: back to normal mode, one column to the left, and no
/// keys pending.
pub open spec fn cancelled(s: AppState) -> AppState {
    AppState { keys: Seq::empty(), ..s.left().set_mode(Mode::Normal) }
}

/// What a key of normal mode does that is none of the keys that only start
/// compound commands. `y` starts the commands that copy. A key that is not
/// named here does nothing.
pub open spec fn normal_key(s: AppState, key: Key) -> (AppState, Effect) {
    match key.code {
        KeyCode::Char('i') => (after_i(s), Effect::Nothing),
        KeyCode::Char('I') => (after_I(s), Effect::Nothing),
        KeyCode::Char('a') => (after_a(s), Effect::Nothing),
        KeyCode::Char('A') => (after_A(s), Effect::Nothing),
        KeyCode::Char('o') => (after_o(s), Effect::Nothing),
        KeyCode::Char('O') => (after_O(s), Effect::Nothing),
        KeyCode::Char(':') => (s.set_mode(Mode::Command), Effect::Nothing),
        KeyCode::Char('v') => (s.set_mode(Mode::Visual), Effect::Nothing),
        KeyCode::Char('V') => (s.set_mode(Mode::VisualLine), Effect::Nothing),
        KeyCode::Ctrl('v') => (s.set_mode(Mode::VisualBlock), Effect::Nothing),
        KeyCode::Char('s') => (after_s(s), Effect::Nothing),
        KeyCode::Down => (after_j(s), Effect::Nothing),
        KeyCode::Char('j') => (after_j(s), Effect::Nothing),
        KeyCode::Up => (after_k(s), Effect::Nothing),
        KeyCode::Char('k') => (after_k(s), Effect::Nothing),
        KeyCode::Left => (s.left(), Effect::Nothing),
        KeyCode::Char('h') => (s.left(), Effect::Nothing),
        KeyCode::Right => (after_l(s), Effect::Nothing),
        KeyCode::Char('l') => (after_l(s), Effect::Nothing),
        KeyCode::Char('0') => (AppState { x: 1, ..s }, Effect::Nothing),
        KeyCode::Char('$') => (after_dollar_sign(s), Effect::Nothing),
        KeyCode::Char('G') => (after_G(s), Effect::Nothing),
        KeyCode::Char('w') => (after_w(s), Effect::Nothing),
        KeyCode::Char('b') => (after_b(s), Effect::Nothing),
        KeyCode::Char('x') => (after_x(s), Effect::Nothing),
        KeyCode::Char('u') => (after_u(s), Effect::Nothing),
        KeyCode::Char('y') => (compound(s, key), Effect::Nothing),
        KeyCode::Char('p') => (after_p(s), Effect::Nothing),
        KeyCode::Char('P') => (after_P(s), Effect::Nothing),
        KeyCode::Enter => (
            AppState { rerender_dir_content: true, x: 1, y: 1, ..s },
            Effect::Open(s.line(s.y as int)),
        ),
        _ => (s, Effect::Nothing),
    }
}

/// Normal mode. Escape drops the pending keys. A key that starts a compound
/// command, and any key while keys are pending, goes to the compound
/// command. Enter asks for the directory under the cursor and puts the
/// cursor on the first line.
pub open spec fn normal_mode(s: AppState, key: Key) -> (AppState, Effect) {
    if key.code == KeyCode::Esc {
        (AppState { keys: Seq::empty(), ..s }, Effect::Nothing)
    } else if s.keys.len() > 0 || is_initializer_key(key.text) {
        (compound(s, key), Effect::Nothing)
    } else {
        normal_key(s, key)
    }
}

/// Backspace in the first column: the line joins the line above, and the
/// cursor stands where the two meet.
pub open spec fn joined_up(s: AppState) -> AppState {
    let row = s.y as int;
    if valid_row(s.lines, row - 1) && valid_row(s.lines, row) {
        AppState { x: cap16(s.line(row - 1).len() as int + 1), ..s.merge(row - 1, row).up() }
    } else {
        s
    }
}

/// Insert mode. Escape leaves it. Backspace
/// deletes before the cursor, or joins the line to the line above. Enter
/// breaks the line. The arrows move. Every other key puts its text in at
/// the cursor.
pub open spec fn insert_mode(s: AppState, key: Key) -> AppState {
    match key.code {
        KeyCode::Esc => cancelled(s),
        KeyCode::Char(' ') => s.insert(s.x as int, s.y as int, seq![' ']).right(),
        KeyCode::Backspace => if s.x <= 1 && s.y <= 1 {
            s
        } else if s.x <= 1 {
            joined_up(s)
        } else {
            s.delete_at(s.x - 1, s.y as int).left()
        },
        KeyCode::Enter => AppState { x: 1, ..s.insert(s.x as int, s.y as int, seq!['\n']).down() },
        KeyCode::Left => s.left(),
        KeyCode::Right => after_l(s),
        KeyCode::Up => after_k(s),
        KeyCode::Down => after_j(s),
        _ => s.insert(s.x as int, s.y as int, key.text).right(),
    }
}

/// What Enter does to the command line `command`: `q` and `wq` end the
/// session, `w` asks for confirmation of pending changes, and everything
/// else just leaves command mode.
pub open spec fn run_command_line(s: AppState, command: Seq<char>) -> AppState {
    if command == seq!['q'] || command == seq!['w', 'q'] {
        AppState { running: false, ..s }
    } else if command == seq!['w'] {
        AppState { command: None, ..s.save() }.set_mode(Mode::Normal)
    } else {
        AppState { command: None, ..s }.set_mode(Mode::Normal)
    }
}

/// Command mode. Enter runs the command line, Escape drops it and leaves
/// the mode, Backspace
/// takes its last character away. Any other key starts the command line
/// with its text, or appends its text where that is one alphanumeric
/// character.
pub open spec fn command_mode(s: AppState, key: Key) -> AppState {
    match key.code {
        KeyCode::Enter => run_command_line(
            s,
            match s.command {
                Some(c) => c,
                None => Seq::empty(),
            },
        ),
        KeyCode::Backspace => match s.command {
            Some(c) => if c.len() > 0 {
                AppState { command: Some(c.drop_last()), ..s }
            } else {
                s
            },
            None => s,
        },
        KeyCode::Esc => AppState { command: None, ..cancelled(s) },
        _ => match s.command {
            Some(c) => if key.text.len() == 1 && is_alphanumeric_char(key.text[0]) {
                AppState { command: Some(c + key.text), ..s }
            } else {
                s
            },
            None => AppState { command: Some(key.text), ..s },
        },
    }
}

/// The visual modes: Escape leaves them; no other key does anything.
pub open spec fn visual_mode(s: AppState, key: Key) -> AppState {
    match key.code {
        KeyCode::Esc => cancelled(s),
        _ => s,
    }
}

/// Pending mode: Escape gives the compound command up, every other key goes
/// to it.
pub open spec fn pending_mode(s: AppState, key: Key) -> AppState {
    match key.code {
        KeyCode::Esc => cancelled(s),
        _ => compound(s, key),
    }
}

/// The answer to the question whether the pending changes are to be carried
/// out. `y` asks for the operations and takes the changes as done. `n` and
/// Escape give the changes up and ask for the listing to be shown afresh.
/// Every other key leaves the question open.
pub open spec fn confirm(s: AppState, key: Key) -> (AppState, Effect) {
    match key.code {
        KeyCode::Char('y') => (
            AppState {
                views: all_committed(s.views),
                command: None,
                need_confirmation: false,
                ..s
            }.set_mode(Mode::Normal),
            Effect::Reconcile(plan(s.views, s.base)),
        ),
        KeyCode::Char('n') | KeyCode::Esc => (
            AppState {
                views: all_reverted(s.views),
                command: None,
                need_confirmation: false,
                rerender_dir_content: true,
                ..s
            }.set_mode(Mode::Normal),
            Effect::Nothing,
        ),
        _ => (s, Effect::Nothing),
    }
}

/// What a key press does: while a confirmation is asked for, the key
/// answers it and the pending keys are dropped; else the mode decides.
pub open spec fn step(s: AppState, key: Key) -> (AppState, Effect) {
    if s.need_confirmation {
        let (t, effect) = confirm(s, key);
        (AppState { keys: Seq::empty(), ..t }, effect)
    } else {
        match s.mode {
            Mode::Normal => normal_mode(s, key),
            Mode::Insert => (insert_mode(s, key), Effect::Nothing),
            Mode::Command => (command_mode(s, key), Effect::Nothing),
            Mode::Visual | Mode::VisualBlock | Mode::VisualLine => (
                visual_mode(s, key),
                Effect::Nothing,
            ),
            Mode::Pending => (pending_mode(s, key), Effect::Nothing),
        }
    }
}

/// Handles a key press and says what it asks of the program around the
/// editor.
pub fn handle_key_events(key_event: KeyEvent, app: &mut App) -> (r: Action)
    ensures
        (final(app)@, r@) == step(old(app)@, key_event@),
{
    if app.need_confirmation {
        let action = handle_confirm(&key_event, app);
        app.command_buffer.clear();
        assert(app@.keys =~= Seq::<char>::empty());
        return action;
    }
    match app.mode {
        Mode::Normal => handle_normal_mode(key_event, app),
        Mode::Insert => {
            handle_insert_mode(key_event, app);
            Action::Nothing
        },
        Mode::Command => {
            handle_command_mode(key_event, app);
            Action::Nothing
        },
        Mode::Visual => {
            handle_visual_mode(key_event, app);
            Action::Nothing
        },
        Mode::VisualBlock => {
            handle_visual_block_mode(key_event, app);
            Action::Nothing
        },
        Mode::VisualLine => {
            handle_visual_line_mode(key_event, app);
            Action::Nothing
        },
        Mode::Pending => {
            handle_pending_mode(key_event, app);
            Action::Nothing
        },
    }
}

/// A key in normal mode: see [`normal_mode`].
pub fn handle_normal_mode(key_event: KeyEvent, app: &mut App) -> (r: Action)
    ensures
        (final(app)@, r@) == normal_mode(old(app)@, key_event@),
{
    match key_event.code {
        KeyCode::Esc => {
            app.command_buffer.clear();
            assert(app@.keys =~= Seq::<char>::empty());
            return Action::Nothing;
        },
        _ => {},
    }
    let buffer_empty = app.command_buffer.is_empty();
    let is_valid_init = app.command_buffer.is_initializer(key_event.text.as_str());
    if !buffer_empty || is_valid_init {
        handle_compound_inputs(key_event, app);
        return Action::Nothing;
    }
    match key_event.code {
        KeyCode::Char('i') => i(app),
        KeyCode::Char('I') => I(app),
        KeyCode::Char('a') => a(app),
        KeyCode::Char('A') => A(app),
        KeyCode::Char('o') => o(app),
        KeyCode::Char('O') => O(app),
        KeyCode::Char(':') => app.set_mode(Mode::Command),
        KeyCode::Char('v') => app.set_mode(Mode::Visual),
        KeyCode::Char('V') => app.set_mode(Mode::VisualLine),
        KeyCode::Ctrl('v') => app.set_mode(Mode::VisualBlock),
        KeyCode::Char('s') => s(app),
        KeyCode::Down => j(app),
        KeyCode::Char('j') => j(app),
        KeyCode::Up => k(app),
        KeyCode::Char('k') => k(app),
        KeyCode::Left => app.cursor.left(),
        KeyCode::Char('h') => app.cursor.left(),
        KeyCode::Right => l(app),
        KeyCode::Char('l') => l(app),
        KeyCode::Char('0') => app.cursor.reset_x(),
        KeyCode::Char('$') => dollar_sign(app),
        KeyCode::Char('G') => G(app),
        KeyCode::Char('w') => w(app),
        KeyCode::Char('b') => b(app),
        KeyCode::Char('x') => x(app),
        KeyCode::Char('u') => u(app),
        KeyCode::Char('y') => handle_compound_inputs(key_event, app),
        KeyCode::Char('p') => p(app),
        KeyCode::Char('P') => P(app),
        KeyCode::Enter => {
            let line = app.line_or_empty(app.cursor.y as usize);
            app.rerender_dir_content = true;
            app.cursor.reset_x();
            app.cursor.reset_y();
            return Action::Open(line);
        },
        _ => {},
    }
    Action::Nothing
}

/// Leaves a mode: back to normal mode, one column to the left, and no keys
/// pending.
pub fn cancel(app: &mut App)
    ensures
        final(app)@ == cancelled(old(app)@),
{
    app.cursor.left();
    app.set_mode(Mode::Normal);
    app.command_buffer.clear();
    assert(app@.keys =~= Seq::<char>::empty());
}

/// A key in insert mode: see [`insert_mode`].
pub fn handle_insert_mode(key_event: KeyEvent, app: &mut App)
    ensures
        final(app)@ == insert_mode(old(app)@, key_event@),
{
    match key_event.code {
        KeyCode::Esc => cancel(app),
        KeyCode::Char(' ') => {
            proof {
                reveal_strlit(" ");
                assert(" "@ =~= seq![' ']);
            }
            app.insert_at(app.cursor.x, app.cursor.y, " ");
            app.cursor.right(0);
        },
        KeyCode::Backspace => {
            if app.cursor.x <= 1 && app.cursor.y <= 1 {
                return ;
            }
            if app.cursor.x <= 1 {
                let row: usize = app.cursor.y as usize;
                let above = app.buffer_content.line_length(row - 1);
                let here = app.buffer_content.line_length(row);
                match (above, here) {
                    (Some(len), Some(_)) => {
                        app.merge(row - 1, row);
                        app.cursor.up();
                        app.cursor.x = if len >= 65535 {
                            u16::MAX
                        } else {
                            (len + 1) as u16
                        };
                    },
                    _ => {},
                }
            } else {
                app.delete_at(app.cursor.x - 1, app.cursor.y);
                app.cursor.left();
            }
        },
        KeyCode::Enter => {
            proof {
                reveal_strlit("\n");
                assert("\n"@ =~= seq!['\n']);
            }
            app.insert_at(app.cursor.x, app.cursor.y, "\n");
            app.cursor.down();
            app.cursor.reset_x();
        },
        KeyCode::Left => app.cursor.left(),
        KeyCode::Right => l(app),
        KeyCode::Up => k(app),
        KeyCode::Down => j(app),
        _ => {
            app.insert_at(app.cursor.x, app.cursor.y, key_event.text.as_str());
            app.cursor.right(0);
        },
    }
}

/// A key in command mode: see [`command_mode`].
pub fn handle_command_mode(key_event: KeyEvent, app: &mut App)
    ensures
        final(app)@ == command_mode(old(app)@, key_event@),
{
    match key_event.code {
        KeyCode::Enter => {
            proof {
                reveal_strlit("q");
                reveal_strlit("w");
                reveal_strlit("wq");
                assert("q"@ =~= seq!['q']);
                assert("w"@ =~= seq!['w']);
                assert("wq"@ =~= seq!['w', 'q']);
            }
            let command = match &app.command {
                Some(c) => c.clone(),
                None => String::new(),
            };
            if str_eq(command.as_str(), "q") || str_eq(command.as_str(), "wq") {
                app.running = false;
            } else if str_eq(command.as_str(), "w") {
                app.save();
                app.command = None;
                app.set_mode(Mode::Normal);
            } else {
                app.command = None;
                app.set_mode(Mode::Normal);
            }
        },
        KeyCode::Backspace => {
            let shorter = match &app.command {
                Some(c) => {
                    let n: usize = c.as_str().unicode_len();
                    if n > 0 {
                        Some(substring(c.as_str(), 0, n - 1))
                    } else {
                        None
                    }
                },
                None => None,
            };
            match shorter {
                Some(c) => {
                    app.command = Some(c);
                },
                None => {},
            }
        },
        KeyCode::Esc => {
            cancel(app);
            app.command = None;
        },
        _ => {
            let longer = match &app.command {
                Some(c) => {
                    let text = key_event.text.as_str();
                    if text.unicode_len() == 1 && text.get_char(0).is_alphanumeric() {
                        Some(concat(c.as_str(), text))
                    } else {
                        None
                    }
                },
                None => Some(key_event.text),
            };
            match longer {
                Some(c) => {
                    app.command = Some(c);
                },
                None => {},
            }
        },
    }
}

/// A key in visual mode: see [`visual_mode`].
pub fn handle_visual_mode(key_event: KeyEvent, app: &mut App)
    ensures
        final(app)@ == visual_mode(old(app)@, key_event@),
{
    match key_event.code {
        KeyCode::Esc => cancel(app),
        _ => {},
    }
}

/// A key in visual block mode: see [`visual_mode`].
pub fn handle_visual_block_mode(key_event: KeyEvent, app: &mut App)
    ensures
        final(app)@ == visual_mode(old(app)@, key_event@),
{
    handle_visual_mode(key_event, app);
}

/// A key in visual line mode: see [`visual_mode`].
pub fn handle_visual_line_mode(key_event: KeyEvent, app: &mut App)
    ensures
        final(app)@ == visual_mode(old(app)@, key_event@),
{
    handle_visual_mode(key_event, app);
}

/// A key in pending mode: see [`pending_mode`].
pub fn handle_pending_mode(key_event: KeyEvent, app: &mut App)
    ensures
        final(app)@ == pending_mode(old(app)@, key_event@),
{
    match key_event.code {
        KeyCode::Esc => cancel(app),
        _ => handle_compound_inputs(key_event, app),
    }
}

/// Carries out the complete compound command `command`.
pub fn execute_command(app: &mut App, command: &str)
    ensures
        final(app)@ == run_command(old(app)@, command@),
{
    proof {
        reveal(run_command);
        reveal_strlit("gg");
        reveal_strlit("cj");
        reveal_strlit("ck");
        reveal_strlit("dj");
        reveal_strlit("dk");
        reveal_strlit("dd");
        reveal_strlit("cc");
        reveal_strlit("dw");
        reveal_strlit("cw");
        reveal_strlit("yy");
        reveal_strlit("yiw");
        reveal_strlit("ciw");
        reveal_strlit("diw");
        assert("gg"@ =~= seq!['g', 'g']);
        assert("cj"@ =~= seq!['c', 'j']);
        assert("ck"@ =~= seq!['c', 'k']);
        assert("dj"@ =~= seq!['d', 'j']);
        assert("dk"@ =~= seq!['d', 'k']);
        assert("dd"@ =~= seq!['d', 'd']);
        assert("cc"@ =~= seq!['c', 'c']);
        assert("dw"@ =~= seq!['d', 'w']);
        assert("cw"@ =~= seq!['c', 'w']);
        assert("yy"@ =~= seq!['y', 'y']);
        assert("yiw"@ =~= seq!['y', 'i', 'w']);
        assert("ciw"@ =~= seq!['c', 'i', 'w']);
        assert("diw"@ =~= seq!['d', 'i', 'w']);
    }
    if str_eq(command, "gg") {
        gg(app);
    } else if str_eq(command, "cj") {
        cj(app);
    } else if str_eq(command, "ck") {
        ck(app);
    } else if str_eq(command, "dj") {
        dj(app);
    } else if str_eq(command, "dk") {
        dk(app);
    } else if str_eq(command, "dd") {
        dd(app);
    } else if str_eq(command, "cc") {
        cc(app);
    } else if str_eq(command, "dw") {
        dw(app);
    } else if str_eq(command, "cw") {
        cw(app);
    } else if str_eq(command, "yy") {
        yy(app);
    } else if str_eq(command, "yiw") {
        yiw(app);
    } else if str_eq(command, "ciw") {
        ciw(app);
    } else if str_eq(command, "diw") {
        diw(app);
    }
}

/// A key of a compound command: see [`compound`].
pub fn handle_compound_inputs(key_event: KeyEvent, app: &mut App)
    ensures
        final(app)@ == compound(old(app)@, key_event@),
{
    if key_event.text.as_str().unicode_len() != 1 {
        return ;
    }
    app.set_mode(Mode::Pending);
    let captured = app.buffer_content.duplicate();
    app.command_buffer.add(key_event.text.as_str());
    if app.command_buffer.is_valid() {
        let command = app.command_buffer.buffer().clone();
        // back to normal mode before the command runs: it may change the mode
        app.set_mode(Mode::Normal);
        execute_command(app, command.as_str());
        app.command_buffer.clear();
        assert(app@.keys =~= Seq::<char>::empty());
    }
    if !app.buffer_content.same_text(&captured) {
        app.record(&captured);
    }
}

/// A key that answers the confirmation: see [`confirm`].
pub fn handle_confirm(key_event: &KeyEvent, app: &mut App) -> (r: Action)
    ensures
        (final(app)@, r@) == confirm(old(app)@, key_event@),
{
    match key_event.code {
        KeyCode::Char('y') => {
            let operations = reconciliation_plan(
                &app.buffer_storage,
                app.path.start_directory().as_str(),
            );
            app.buffer_storage.commit();
            app.command = None;
            app.set_mode(Mode::Normal);
            app.need_confirmation = false;
            Action::Reconcile(operations)
        },
        KeyCode::Char('n') | KeyCode::Esc => {
            app.buffer_storage.revert();
            app.command = None;
            app.set_mode(Mode::Normal);
            app.need_confirmation = false;
            app.rerender_dir_content = true;
            Action::Nothing
        },
        _ => Action::Nothing,
    }
}

} // verus!
