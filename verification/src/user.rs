//! What the user sees and types: the prompt, the line being edited, and the
//! report of an error.

use vstd::prelude::*;
use crate::chars::{
    chars_of, lines, push_text, same_text, split_lines, text_of, texts, trim, trimmed,
};

verus! {

/// A key that the user pressed.
#[derive(Debug, Clone, Copy, PartialEq, Eq, Structural)]
pub enum Key {
    /// A character.
    Char(char),
    /// Control and C together.
    Interrupt,
    /// The enter key.
    Enter,
    /// The left arrow.
    Left,
    /// The right arrow.
    Right,
    /// The backspace key.
    Backspace,
    /// The up arrow.
    Up,
    /// The down arrow.
    Down,
    /// The tabulator key.
    Tab,
    /// Any other key.
    Other,
}

/// One change to what the terminal shows.
#[derive(Debug, Clone, Copy, PartialEq, Eq, Structural)]
pub enum Draw {
    /// Move the cursor left by this many columns.
    MoveLeft(usize),
    /// Move the cursor right by this many columns.
    MoveRight(usize),
    /// Clear from the cursor to the end of the line.
    ClearToEnd,
    /// Print this character.
    PrintChar(char),
    /// Print the line as it is after the key.
    PrintInput,
}

/// What a key led to.
#[derive(Debug, Clone, PartialEq, Eq)]
pub enum Pressed {
    /// The line is still being edited; the terminal is to show these changes.
    Editing(Vec<Draw>),
    /// The line is finished.
    Submitted(String),
    /// The user asks for the programs that can be run.
    Completing,
}

/// A `Pressed` as a mathematical value.
pub enum PressedView {
    Editing(Seq<Draw>),
    Submitted(Seq<char>),
    Completing,
}

impl View for Pressed {
    type V = PressedView;

    open spec fn view(&self) -> PressedView {
        match *self {
            Pressed::Editing(draws) => PressedView::Editing(draws@),
            Pressed::Submitted(line) => PressedView::Submitted(line@),
            Pressed::Completing => PressedView::Completing,
        }
    }
}

/// The line that the user is typing.
#[derive(Debug, Clone, PartialEq, Eq)]
pub struct Input {
    /// The characters typed so far.
    pub input: Vec<char>,
    /// The column of the cursor within the line; the leftmost is 0.
    pub input_cursor: usize,
    /// The line of the history that the arrows last brought up, if they
    /// brought one up.
    pub history_pointer: Option<usize>,
}

/// An `Input` as a mathematical value.
pub struct InputView {
    pub input: Seq<char>,
    pub cursor: nat,
    pub pointer: Option<nat>,
}

impl View for Input {
    type V = InputView;

    open spec fn view(&self) -> InputView {
        InputView {
            input: self.input@,
            cursor: self.input_cursor as nat,
            pointer: match self.history_pointer {
                Some(p) => Some(p as nat),
                None => None,
            },
        }
    }
}

/// The changes that clear what the user typed from the terminal.
pub open spec fn clearing(s: InputView) -> Seq<Draw> {
    if s.input.len() == 0 {
        Seq::empty()
    } else if s.cursor != 0 {
        seq![Draw::MoveLeft(s.cursor as usize), Draw::ClearToEnd]
    } else {
        seq![Draw::ClearToEnd]
    }
}

/// The line of the history that an arrow brings up: the last one at first;
/// then the one before for the up arrow and the one after for the down
/// arrow, as far as there is one.
pub open spec fn recalled(pointer: Option<nat>, up: bool, count: nat) -> nat {
    match pointer {
        None => (count - 1) as nat,
        Some(p) => {
            if p >= count {
                (count - 1) as nat
            } else if up && p != 0 {
                (p - 1) as nat
            } else if !up && p + 1 < count {
                p + 1
            } else {
                p
            }
        },
    }
}

impl InputView {
    /// The cursor stands within the line or at its end.
    pub open spec fn well_formed(self) -> bool {
        self.cursor <= self.input.len()
    }

    /// An empty line.
    pub open spec fn fresh() -> InputView {
        InputView { input: Seq::empty(), cursor: 0, pointer: None }
    }

    /// The line after the key `key`, where `history` holds the lines that
    /// were entered before.
    pub open spec fn after(self, key: Key, history: Seq<Seq<char>>) -> InputView {
        match key {
            Key::Char(c) => InputView {
                input: self.input.insert(self.cursor as int, c),
                cursor: self.cursor + 1,
                ..self
            },
            Key::Left => if self.cursor > 0 {
                InputView { cursor: (self.cursor - 1) as nat, ..self }
            } else {
                self
            },
            Key::Right => if self.cursor < self.input.len() {
                InputView { cursor: self.cursor + 1, ..self }
            } else {
                self
            },
            Key::Backspace => if self.cursor > 0 {
                InputView {
                    input: self.input.remove(self.cursor - 1),
                    cursor: (self.cursor - 1) as nat,
                    ..self
                }
            } else {
                self
            },
            Key::Up | Key::Down => if history.len() == 0 {
                self
            } else {
                let p = recalled(self.pointer, key is Up, history.len());
                InputView {
                    input: history[p as int],
                    cursor: history[p as int].len(),
                    pointer: Some(p),
                }
            },
            _ => self,
        }
    }

    /// What the key `key` leads to.
    pub open spec fn shown(self, key: Key, history: Seq<Seq<char>>) -> PressedView {
        match key {
            Key::Char(c) => PressedView::Editing(
                if self.cursor >= self.input.len() {
                    seq![Draw::PrintChar(c)]
                } else if self.cursor > 0 {
                    seq![
                        Draw::MoveLeft(self.cursor as usize),
                        Draw::PrintInput,
                        Draw::MoveLeft((self.input.len() - self.cursor) as usize),
                    ]
                } else {
                    seq![Draw::PrintInput, Draw::MoveLeft(self.input.len() as usize)]
                },
            ),
            Key::Enter => PressedView::Submitted(self.input),
            Key::Left => PressedView::Editing(
                if self.cursor > 0 {
                    seq![Draw::MoveLeft(1)]
                } else {
                    Seq::empty()
                },
            ),
            Key::Right => PressedView::Editing(
                if self.cursor < self.input.len() {
                    seq![Draw::MoveRight(1)]
                } else {
                    Seq::empty()
                },
            ),
            Key::Backspace => PressedView::Editing(
                if self.cursor == 0 {
                    Seq::empty()
                } else if self.cursor < self.input.len() {
                    seq![
                        Draw::MoveLeft(self.cursor as usize),
                        Draw::ClearToEnd,
                        Draw::PrintInput,
                        Draw::MoveLeft((self.input.len() - self.cursor) as usize),
                    ]
                } else {
                    seq![Draw::MoveLeft(self.cursor as usize), Draw::ClearToEnd, Draw::PrintInput]
                },
            ),
            Key::Up | Key::Down => PressedView::Editing(
                if history.len() == 0 {
                    Seq::empty()
                } else {
                    clearing(self).push(Draw::PrintInput)
                },
            ),
            Key::Tab => PressedView::Completing,
            Key::Interrupt | Key::Other => PressedView::Editing(Seq::empty()),
        }
    }
}

/// The line after the characters `chars` were typed, one after the other.
pub open spec fn typed(s: InputView, chars: Seq<char>) -> InputView
    decreases chars.len(),
{
    if chars.len() == 0 {
        s
    } else {
        typed(s, chars.drop_last()).after(Key::Char(chars.last()), Seq::empty())
    }
}

/// Characters typed at the end of a line are added to it in the order in
/// which they were typed, and the cursor stays at the end; the enter key
/// then submits the line with all of them.
pub proof fn lemma_typed_then_entered(s: InputView, chars: Seq<char>, history: Seq<Seq<char>>)
    requires
        s.cursor == s.input.len(),
    ensures
        typed(s, chars).input == s.input + chars,
        typed(s, chars).cursor == s.input.len() + chars.len(),
        typed(s, chars).pointer == s.pointer,
        typed(s, chars).well_formed(),
        typed(s, chars).shown(Key::Enter, history) == PressedView::Submitted(s.input + chars),
    decreases chars.len(),
{
    if chars.len() == 0 {
        assert(s.input + chars =~= s.input);
    } else {
        let earlier = chars.drop_last();
        lemma_typed_then_entered(s, earlier, history);
        let t = typed(s, earlier);
        assert(t.input.insert(t.cursor as int, chars.last()) =~= s.input + chars);
    }
}

impl Input {
    /// An empty line.
    pub fn new() -> (r: Self)
        ensures
            r@ == InputView::fresh(),
            r@.well_formed(),
    {
        Input { input: Vec::new(), input_cursor: 0, history_pointer: None }
    }

    /// Tells whether the cursor stands within the line or at its end.
    pub fn is_well_formed(&self) -> (b: bool)
        ensures
            b == self@.well_formed(),
    {
        self.input_cursor <= self.input.len()
    }

    /// Empties the line, for the next prompt.
    pub fn clear(&mut self)
        ensures
            final(self)@ == InputView::fresh(),
            final(self)@.well_formed(),
    {
        self.input = Vec::new();
        self.input_cursor = 0;
        self.history_pointer = None;
    }

    /// The line as text.
    pub fn text(&self) -> (r: String)
        ensures
            r@ == self@.input,
    {
        text_of(&self.input)
    }

    /// Reads the key `key`, where `log` is the history log: changes the line,
    /// and says what the key led to.
    pub fn read_keys(&mut self, key: Key, log: &str) -> (r: Pressed)
        requires
            old(self)@.well_formed(),
            old(self).input.len() < usize::MAX,
        ensures
            final(self)@ == old(self)@.after(key, lines(log@)),
            r@ == old(self)@.shown(key, lines(log@)),
            final(self)@.well_formed(),
    {
        let ghost before = self@;
        let len = self.input.len();
        let cursor = self.input_cursor;
        let mut draws: Vec<Draw> = Vec::new();
        match key {
            Key::Char(c) => {
                if cursor < len {
                    self.input.insert(cursor, c);
                    if cursor > 0 {
                        draws.push(Draw::MoveLeft(cursor));
                    }
                    draws.push(Draw::PrintInput);
                    draws.push(Draw::MoveLeft(len - cursor));
                    self.input_cursor = cursor + 1;
                } else {
                    self.input.push(c);
                    draws.push(Draw::PrintChar(c));
                    self.input_cursor = cursor + 1;
                    assert(self.input@ =~= before.input.insert(cursor as int, c));
                }
            },
            Key::Enter => {
                return Pressed::Submitted(text_of(&self.input));
            },
            Key::Left => {
                if cursor > 0 {
                    self.input_cursor = cursor - 1;
                    draws.push(Draw::MoveLeft(1));
                }
            },
            Key::Right => {
                if cursor < len {
                    self.input_cursor = cursor + 1;
                    draws.push(Draw::MoveRight(1));
                }
            },
            Key::Backspace => {
                if cursor > 0 {
                    draws.push(Draw::MoveLeft(cursor));
                    draws.push(Draw::ClearToEnd);
                    draws.push(Draw::PrintInput);
                    if cursor < len {
                        draws.push(Draw::MoveLeft(len - cursor));
                    }
                    self.input.remove(cursor - 1);
                    self.input_cursor = cursor - 1;
                }
            },
            Key::Up | Key::Down => {
                let history = split_lines(log);
                let count = history.len();
                if count != 0 {
                    let up = match key {
                        Key::Up => true,
                        _ => false,
                    };
                    let p = match self.history_pointer {
                        None => count - 1,
                        Some(p) => {
                            if p >= count {
                                count - 1
                            } else if up && p != 0 {
                                p - 1
                            } else if !up && p + 1 < count {
                                p + 1
                            } else {
                                p
                            }
                        },
                    };
                    if len != 0 {
                        if cursor != 0 {
                            draws.push(Draw::MoveLeft(cursor));
                        }
                        draws.push(Draw::ClearToEnd);
                    }
                    draws.push(Draw::PrintInput);
                    assert(texts(history@)[p as int] == history[p as int]@);
                    self.input = chars_of(history[p].as_str());
                    self.input_cursor = self.input.len();
                    self.history_pointer = Some(p);
                }
            },
            Key::Tab => {
                return Pressed::Completing;
            },
            Key::Interrupt | Key::Other => {},
        }
        assert(draws@ =~= before.shown(key, lines(log@))->Editing_0);
        Pressed::Editing(draws)
    }
}

/// What the prompt shows.
#[derive(Debug, Clone, PartialEq, Eq)]
pub struct Prompt {
    /// The text of the prompt: how the last program ended, where it did not
    /// end well, and then the working directory.
    pub text: String,
    /// Whether the prompt stands out: the last program did not end well.
    pub alert: bool,
}

/// How the prompt shows the way the last program ended: not at all where it
/// ended well, and between two bars where it did not.
pub open spec fn status_mark(exit_code: Seq<char>) -> Seq<char> {
    if exit_code == "0"@ {
        Seq::empty()
    } else {
        "|"@ + exit_code + "|"@
    }
}

/// How the prompt shows the working directory: two dots and the last part
/// of its path where it has one, else the whole path; then `"> "`.
pub open spec fn prompt_text(cwd: Seq<char>, last: Option<Seq<char>>) -> Seq<char> {
    match last {
        Some(name) => ".."@ + name + "> "@,
        None => cwd + "> "@,
    }
}

/// What a line asks of the loop that reads lines.
#[derive(Debug, Clone, Copy, PartialEq, Eq, Structural)]
pub enum Line {
    /// To end the session.
    Exit,
    /// Nothing: the line is empty but for whitespace.
    Blank,
    /// To run the line.
    Command,
}

/// What the line `input` asks of the loop that reads lines.
pub open spec fn line_kind(input: Seq<char>) -> Line {
    if trimmed(input) == "exit"@ {
        Line::Exit
    } else if trimmed(input).len() == 0 {
        Line::Blank
    } else {
        Line::Command
    }
}

impl Input {
    /// What the prompt shows, where `cwd` is the working directory, `last` is
    /// the last part of its path, if it has one, and `exit_code` tells how
    /// the last program ended: the way it ended, unless it ended well, and
    /// then the directory.
    pub fn prompt(cwd: &str, last: Option<&str>, exit_code: &str) -> (r: Prompt)
        ensures
            r.text@ == status_mark(exit_code@) + prompt_text(
                cwd@,
                crate::text_processing::found_text(last),
            ),
            r.alert == (exit_code@ != "0"@),
    {
        let alert = !same_text(exit_code, "0");
        let mut text = String::new();
        if alert {
            push_text(&mut text, "|");
            push_text(&mut text, exit_code);
            push_text(&mut text, "|");
        }
        assert(text@ =~= status_mark(exit_code@));
        match last {
            Some(name) => {
                push_text(&mut text, "..");
                push_text(&mut text, name);
            },
            None => {
                push_text(&mut text, cwd);
            },
        }
        push_text(&mut text, "> ");
        assert(text@ =~= status_mark(exit_code@) + prompt_text(
            cwd@,
            crate::text_processing::found_text(last),
        ));
        Prompt { text, alert }
    }

    /// What the line `input` asks of the loop that reads lines.
    pub fn classify(input: &str) -> (r: Line)
        ensures
            r == line_kind(input@),
    {
        let t = trim(input);
        if same_text(t.as_str(), "exit") {
            Line::Exit
        } else if t.as_str().unicode_len() == 0 {
            Line::Blank
        } else {
            Line::Command
        }
    }
}

/// A piece of text, and whether it stands out.
#[derive(Debug, Clone, PartialEq, Eq)]
pub struct Styled {
    /// The text.
    pub text: String,
    /// Whether the text is shown bold and in the colour of errors.
    pub alert: bool,
}

/// Reports to the user.
#[derive(Debug, Clone, Copy)]
pub struct Output;

impl Output {
    /// The report of an error with the message `message`: a heading that
    /// stands out, then the message on a line of its own.
    pub fn shell_error(message: &str) -> (r: (Styled, Styled))
        ensures
            r.0.text@ == "Shell error:"@,
            r.0.alert,
            r.1.text@ == "\n"@ + message@ + "\n"@,
            !r.1.alert,
    {
        let heading = Styled { text: "Shell error:".to_owned(), alert: true };
        let mut body = "\n".to_owned();
        push_text(&mut body, message);
        push_text(&mut body, "\n");
        (heading, Styled { text: body, alert: false })
    }
}

} // verus!
