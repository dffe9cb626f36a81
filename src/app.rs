use vstd::prelude::*;
use vstd::string::{StrSliceExecFns, StringExecFns};
use crate::reagent::Reagent;

verus! {

/// The panel that has the focus.
#[derive(Debug, Clone, Copy, PartialEq, Eq)]
pub enum ActiveBlock {
    FileNameInput,
    ReagentOutput,
}

/// The outcome of the last load.
#[derive(Debug, Clone, Copy, PartialEq, Eq)]
pub enum Status {
    Neutral,
    Success,
    Error,
}

/// The state of the interactive front end: the file name being edited, the
/// loaded target and pool, and the solver's report.
pub struct App {
    /// Is the application running?
    pub running: bool,
    /// Reagent file name.
    pub file_name_input: String,
    /// Parsed reagents.
    pub reagents: Vec<Reagent>,
    /// Edit mode.
    pub edit_mode: bool,
    /// Active block.
    pub active_block: ActiveBlock,
    /// The target.
    pub exitus: Reagent,
    /// Log message.
    pub log_message: String,
    /// Status.
    pub status: Status,
    /// Solver log.
    pub solver_log: Vec<String>,
    /// Cursor position in the file name, in characters.
    pub character_index: usize,
    /// Reagents and target as text.
    pub reagents_and_exitus: String,
}

/// Relies on `String::push`: the character is appended at the end.
#[verifier::external_body]
fn push_char(s: &mut String, c: char)
    ensures
        final(s)@ == old(s)@.push(c),
{
    s.push(c);
}

/// The text with `c` inserted before character `k`.
pub open spec fn inserted(s: Seq<char>, k: int, c: char) -> Seq<char> {
    s.take(k).push(c) + s.skip(k)
}

/// The smaller of two integers.
pub open spec fn min_int(a: int, b: int) -> int {
    if a <= b {
        a
    } else {
        b
    }
}

/// A key press, as the front end reports it.
#[derive(Debug, Clone, Copy, PartialEq, Eq)]
pub enum Key {
    Char(char),
    Esc,
    Enter,
    Backspace,
    Left,
    Right,
    Up,
    Down,
    Other,
}

/// What the front end must do after a key press, beyond the change of state.
#[derive(Debug, Clone, Copy, PartialEq, Eq)]
pub enum KeyAction {
    Nothing,
    LoadFile,
    Solve,
}

/// How a key press acts on the state.
pub enum KeyEffect {
    Ignore,
    Quit,
    Type(char),
    Delete,
    CursorLeft,
    CursorRight,
    ToggleEdit,
    Load,
    Solve,
    NoReagents,
}

/// The keys that quit outside edit mode and type a `q` into the file name in it.
pub open spec fn quit_or_type(edit_mode: bool, on_input: bool) -> KeyEffect {
    if !edit_mode {
        KeyEffect::Quit
    } else if on_input {
        KeyEffect::Type('q')
    } else {
        KeyEffect::Ignore
    }
}

/// What a key press does, given the modifier state, the mode, whether the
/// file name has the focus and whether reagents are loaded.
pub open spec fn key_effect(
    key: Key,
    control: bool,
    edit_mode: bool,
    on_input: bool,
    has_reagents: bool,
) -> KeyEffect {
    let typing = edit_mode && on_input;
    match key {
        Key::Esc => quit_or_type(edit_mode, on_input),
        Key::Char(c) => {
            if c == 'q' {
                quit_or_type(edit_mode, on_input)
            } else if c == 'c' || c == 'C' {
                if control {
                    KeyEffect::Quit
                } else {
                    KeyEffect::Ignore
                }
            } else if c == 'r' && !edit_mode {
                KeyEffect::Load
            } else if c == 's' && !edit_mode {
                if has_reagents {
                    KeyEffect::Solve
                } else {
                    KeyEffect::NoReagents
                }
            } else if typing {
                KeyEffect::Type(c)
            } else {
                KeyEffect::Ignore
            }
        },
        Key::Left => if typing {
            KeyEffect::CursorLeft
        } else {
            KeyEffect::Ignore
        },
        Key::Right => if typing {
            KeyEffect::CursorRight
        } else {
            KeyEffect::Ignore
        },
        Key::Enter => KeyEffect::ToggleEdit,
        Key::Backspace => if typing {
            KeyEffect::Delete
        } else {
            KeyEffect::Ignore
        },
        _ => KeyEffect::Ignore,
    }
}

/// The message logged when a search is asked for with no reagents loaded.
pub open spec fn no_reagents_message() -> Seq<char> {
    seq![
        'N', 'o', ' ', 'r', 'e', 'a', 'g', 'e', 'n', 't', 's', ' ', 'l', 'o', 'a', 'd', 'e', 'd',
    ]
}

/// The cursor after a move left: one character back, within the text.
pub open spec fn cursor_left(ci: usize, len: int) -> usize {
    min_int(if ci == 0 { 0 } else { ci - 1 }, len) as usize
}

/// The cursor after a move right: one character on, within the text.
pub open spec fn cursor_right(ci: usize, len: int) -> usize {
    min_int(if ci == usize::MAX { usize::MAX as int } else { ci + 1 }, len) as usize
}

/// `b` is `a` with the cursor moved left.
pub open spec fn moved_left(a: App, b: App) -> bool {
    b == (App { character_index: cursor_left(a.character_index, a.file_name_input@.len() as int), ..a })
}

/// `b` is `a` with the cursor moved right.
pub open spec fn moved_right(a: App, b: App) -> bool {
    b == (App { character_index: cursor_right(a.character_index, a.file_name_input@.len() as int), ..a })
}

/// `b` is `a` with `c` typed at the cursor.
pub open spec fn entered(a: App, b: App, c: char) -> bool {
    let k = min_int(a.character_index as int, a.file_name_input@.len() as int);
    let s = inserted(a.file_name_input@, k, c);
    &&& b.file_name_input@ == s
    &&& b.character_index == cursor_right(a.character_index, s.len() as int)
    &&& b == (App { file_name_input: b.file_name_input, character_index: b.character_index, ..a })
}

/// `b` is `a` with the character before the cursor deleted.
pub open spec fn deleted(a: App, b: App) -> bool {
    if a.character_index == 0 {
        b == a
    } else {
        let ci = a.character_index as int;
        let len = a.file_name_input@.len() as int;
        let s = a.file_name_input@.take(min_int(ci - 1, len)) + a.file_name_input@.skip(min_int(ci, len));
        &&& b.file_name_input@ == s
        &&& b.character_index == cursor_left(a.character_index, s.len() as int)
        &&& b == (App { file_name_input: b.file_name_input, character_index: b.character_index, ..a })
    }
}

impl Default for App {
    fn default() -> (r: App)
        ensures
            r.running,
            r.file_name_input@ == seq!['r', 'e', 'a', 'g', 'e', 'n', 't', 's', '.', 't', 'x', 't'],
            r.reagents@.len() == 0,
            !r.edit_mode,
            r.active_block == ActiveBlock::FileNameInput,
            r.exitus.name@.len() == 0,
            r.exitus.atoms@.len() == 0,
            r.exitus.score is None,
            r.log_message@.len() == 0,
            r.status == Status::Neutral,
            r.solver_log@.len() == 0,
            r.character_index == 12,
            r.reagents_and_exitus@.len() == 0,
    {
        let file_name_input = String::from_str("reagents.txt");
        proof {
            reveal_strlit("reagents.txt");
        }
        let character_index = file_name_input.as_str().unicode_len();
        assert(file_name_input@ =~= seq!['r', 'e', 'a', 'g', 'e', 'n', 't', 's', '.', 't', 'x', 't']);
        App {
            running: true,
            file_name_input,
            reagents: Vec::new(),
            log_message: String::new(),
            exitus: Reagent { name: String::new(), atoms: Vec::new(), score: None },
            reagents_and_exitus: String::new(),
            active_block: ActiveBlock::FileNameInput,
            status: Status::Neutral,
            edit_mode: false,
            solver_log: Vec::new(),
            character_index,
        }
    }
}

impl App {
    /// Constructs a new instance of [`App`].
    pub fn new() -> (r: App)
        ensures
            r.running,
            r.file_name_input@ == seq!['r', 'e', 'a', 'g', 'e', 'n', 't', 's', '.', 't', 'x', 't'],
            r.reagents@.len() == 0,
            !r.edit_mode,
            r.active_block == ActiveBlock::FileNameInput,
            r.exitus.name@.len() == 0,
            r.exitus.atoms@.len() == 0,
            r.exitus.score is None,
            r.log_message@.len() == 0,
            r.status == Status::Neutral,
            r.solver_log@.len() == 0,
            r.character_index == 12,
            r.reagents_and_exitus@.len() == 0,
    {
        Self::default()
    }

    /// Handles the tick event of the terminal.
    pub fn tick(&self) {
    }

    /// Set running to false to quit the application.
    pub fn quit(&mut self)
        ensures
            *final(self) == (App { running: false, ..*old(self) }),
    {
        self.running = false;
    }

    /// Gives the focus to a panel.
    pub fn switch_active_block(&mut self, active_block: ActiveBlock)
        ensures
            *final(self) == (App { active_block, ..*old(self) }),
    {
        self.active_block = active_block;
    }

    /// The position, limited to the length of the file name in characters.
    pub fn clamp_cursor(&self, new_cursor_pos: usize) -> (r: usize)
        ensures
            r == min_int(new_cursor_pos as int, self.file_name_input@.len() as int),
    {
        let n = self.file_name_input.as_str().unicode_len();
        if new_cursor_pos <= n {
            new_cursor_pos
        } else {
            n
        }
    }

    /// Moves the cursor one character left, if it can.
    pub fn move_cursor_left(&mut self)
        ensures
            moved_left(*old(self), *final(self)),
    {
        let cursor_moved_left = self.character_index.saturating_sub(1);
        self.character_index = self.clamp_cursor(cursor_moved_left);
    }

    /// Moves the cursor one character right, if it can.
    pub fn move_cursor_right(&mut self)
        ensures
            moved_right(*old(self), *final(self)),
    {
        let cursor_moved_right = self.character_index.saturating_add(1);
        self.character_index = self.clamp_cursor(cursor_moved_right);
    }

    /// The byte offset in the file name of the character under the cursor,
    /// or the file name's length in bytes when the cursor is past its end.
    pub fn byte_index(&mut self) -> (r: usize)
        ensures
            *final(self) == *old(self),
            r == vstd::utf8::encode_utf8(
                old(self).file_name_input@.take(
                    min_int(old(self).character_index as int, old(self).file_name_input@.len() as int),
                ),
            ).len() as usize,
    {
        let s = self.file_name_input.as_str();
        let n = s.unicode_len();
        let k = if self.character_index <= n {
            self.character_index
        } else {
            n
        };
        s.substring_char(0, k).len()
    }

    /// Inserts a character at the cursor and moves the cursor past it.
    pub fn enter_char(&mut self, new_char: char)
        ensures
            entered(*old(self), *final(self), new_char),
    {
        let s = self.file_name_input.as_str();
        let n = s.unicode_len();
        let k = if self.character_index <= n {
            self.character_index
        } else {
            n
        };
        let mut text = s.substring_char(0, k).to_owned();
        push_char(&mut text, new_char);
        text.append(s.substring_char(k, n));
        assert(text@ =~= inserted(old(self).file_name_input@, k as int, new_char));
        self.file_name_input = text;
        self.move_cursor_right();
    }

    /// Applies a key press to the state and says what the front end must do
    /// next: read the file, run the search, or nothing.
    pub fn handle_key(&mut self, key: Key, control: bool) -> (r: KeyAction)
        ensures
            ({
                let a = *old(self);
                let b = *final(self);
                match key_effect(
                    key,
                    control,
                    a.edit_mode,
                    a.active_block is FileNameInput,
                    a.reagents@.len() > 0,
                ) {
                    KeyEffect::Ignore => b == a && r == KeyAction::Nothing,
                    KeyEffect::Quit => b == (App { running: false, ..a }) && r == KeyAction::Nothing,
                    KeyEffect::Type(c) => entered(a, b, c) && r == KeyAction::Nothing,
                    KeyEffect::Delete => deleted(a, b) && r == KeyAction::Nothing,
                    KeyEffect::CursorLeft => moved_left(a, b) && r == KeyAction::Nothing,
                    KeyEffect::CursorRight => moved_right(a, b) && r == KeyAction::Nothing,
                    KeyEffect::ToggleEdit => b == (App { edit_mode: !a.edit_mode, ..a }) && r
                        == KeyAction::Nothing,
                    KeyEffect::Load => b == a && r == KeyAction::LoadFile,
                    KeyEffect::Solve => b == a && r == KeyAction::Solve,
                    KeyEffect::NoReagents => b == (App { solver_log: b.solver_log, ..a })
                        && b.solver_log@.len() == 1 && b.solver_log@[0]@ == no_reagents_message()
                        && r == KeyAction::Nothing,
                }
            }),
    {
        let typing = self.edit_mode && matches!(self.active_block, ActiveBlock::FileNameInput);
        match key {
            Key::Esc => self.quit_or_type(),
            Key::Char(c) => {
                if c == 'q' {
                    self.quit_or_type()
                } else if c == 'c' || c == 'C' {
                    if control {
                        self.quit();
                    }
                    KeyAction::Nothing
                } else if c == 'r' && !self.edit_mode {
                    KeyAction::LoadFile
                } else if c == 's' && !self.edit_mode {
                    if self.reagents.len() > 0 {
                        KeyAction::Solve
                    } else {
                        let mut log: Vec<String> = Vec::new();
                        log.push(String::from_str("No reagents loaded"));
                        proof {
                            reveal_strlit("No reagents loaded");
                            assert(log@[0]@ =~= no_reagents_message());
                        }
                        self.solver_log = log;
                        KeyAction::Nothing
                    }
                } else {
                    if typing {
                        self.enter_char(c);
                    }
                    KeyAction::Nothing
                }
            },
            Key::Left => {
                if typing {
                    self.move_cursor_left();
                }
                KeyAction::Nothing
            },
            Key::Right => {
                if typing {
                    self.move_cursor_right();
                }
                KeyAction::Nothing
            },
            Key::Enter => {
                self.edit_mode = !self.edit_mode;
                KeyAction::Nothing
            },
            Key::Backspace => {
                if typing {
                    self.delete_char();
                }
                KeyAction::Nothing
            },
            _ => KeyAction::Nothing,
        }
    }

    /// Quits outside edit mode; in it, types a `q` into the file name when
    /// that has the focus.
    fn quit_or_type(&mut self) -> (r: KeyAction)
        ensures
            r == KeyAction::Nothing,
            match quit_or_type(old(self).edit_mode, old(self).active_block is FileNameInput) {
                KeyEffect::Quit => *final(self) == (App { running: false, ..*old(self) }),
                KeyEffect::Type(c) => entered(*old(self), *final(self), c),
                _ => *final(self) == *old(self),
            },
    {
        if !self.edit_mode {
            self.quit();
        } else if matches!(self.active_block, ActiveBlock::FileNameInput) {
            self.enter_char('q');
        }
        KeyAction::Nothing
    }

    /// Deletes the character before the cursor, if any, and moves the cursor
    /// onto its place.
    pub fn delete_char(&mut self)
        ensures
            deleted(*old(self), *final(self)),
    {
        let is_not_cursor_leftmost = self.character_index != 0;
        if is_not_cursor_leftmost {
            let current_index = self.character_index;
            let from_left_to_current_index = current_index - 1;
            let s = self.file_name_input.as_str();
            let n = s.unicode_len();
            let a = if from_left_to_current_index <= n {
                from_left_to_current_index
            } else {
                n
            };
            let b = if current_index <= n {
                current_index
            } else {
                n
            };
            let mut text = s.substring_char(0, a).to_owned();
            text.append(s.substring_char(b, n));
            self.file_name_input = text;
            self.move_cursor_left();
        }
    }
}

} // verus!
