//! The state of a session, and the commands that run inside the shell.

use vstd::prelude::*;
use crate::chars::{same_text, texts};
use crate::error::{ExecError, ExecErrorView};

verus! {

/// What lasts from one line to the next.
#[derive(Debug, Clone, PartialEq, Eq)]
pub struct Session {
    /// The current working directory.
    pub cwd: String,
    /// How the last program ended: its exit code in decimal digits, `"!"`
    /// where a signal ended it or a command of the shell refused to run, `"?"`
    /// where it could not be started or waited for.
    pub exit_code: String,
    /// The directories that `pushd` entered, the latest last, on top of the
    /// directory that the first `pushd` left.
    pub dir_stack: Vec<String>,
}

/// A `Session` as a mathematical value.
pub struct SessionView {
    pub cwd: Seq<char>,
    pub exit_code: Seq<char>,
    pub dir_stack: Seq<Seq<char>>,
}

impl View for Session {
    type V = SessionView;

    open spec fn view(&self) -> SessionView {
        SessionView {
            cwd: self.cwd@,
            exit_code: self.exit_code@,
            dir_stack: texts(self.dir_stack@),
        }
    }
}

impl SessionView {
    /// The session that starts in the directory `cwd`.
    pub open spec fn fresh(cwd: Seq<char>) -> SessionView {
        SessionView { cwd, exit_code: "0"@, dir_stack: Seq::empty() }
    }

    /// The directory stack is empty, or it holds the directory that the first
    /// `pushd` left and at least one that a `pushd` entered.
    pub open spec fn well_formed(self) -> bool {
        self.dir_stack.len() != 1
    }

    /// The session with `status` as the way the last program ended.
    pub open spec fn with_status(self, status: Seq<char>) -> SessionView {
        SessionView { exit_code: status, ..self }
    }

    /// The session after `cd` arrived in the directory `cwd`.
    pub open spec fn entered(self, cwd: Seq<char>) -> SessionView {
        SessionView { cwd, ..self }
    }

    /// The session after `pushd` arrived in the directory `cwd`: an empty
    /// stack first takes the directory that was left, then the stack takes
    /// the directory that was entered.
    pub open spec fn pushed(self, cwd: Seq<char>) -> SessionView {
        let below = if self.dir_stack.len() == 0 {
            seq![self.cwd]
        } else {
            self.dir_stack
        };
        SessionView { cwd, dir_stack: below.push(cwd), ..self }
    }

    /// The directory that `popd` goes back to: the one below the top of the
    /// stack.
    pub open spec fn pop_target(self) -> Seq<char> {
        self.dir_stack[self.dir_stack.len() - 2]
    }

    /// The session after `popd` arrived in the directory `cwd`: the top of
    /// the stack is gone, and where only the directory that the first `pushd`
    /// left remains, that is gone too.
    pub open spec fn popped(self, cwd: Seq<char>) -> SessionView {
        let rest = if self.dir_stack.len() == 0 {
            self.dir_stack
        } else {
            self.dir_stack.drop_last()
        };
        SessionView {
            cwd,
            dir_stack: if rest.len() == 1 {
                Seq::empty()
            } else {
                rest
            },
            ..self
        }
    }
}

/// The commands that run inside the shell.
#[derive(Debug, Clone, Copy, PartialEq, Eq, Structural)]
pub enum Builtin {
    /// Change the working directory.
    Cd,
    /// Print the working directory.
    Pwd,
    /// Change the working directory, and remember where from.
    Pushd,
    /// Go back to where the last `pushd` came from.
    Popd,
    /// List the lines that were entered.
    History,
}

/// The command of the shell that `program` names, if it names one.
pub open spec fn builtin_of(program: Seq<char>) -> Option<Builtin> {
    if program == "cd"@ {
        Some(Builtin::Cd)
    } else if program == "pwd"@ {
        Some(Builtin::Pwd)
    } else if program == "pushd"@ {
        Some(Builtin::Pushd)
    } else if program == "popd"@ {
        Some(Builtin::Popd)
    } else if program == "history"@ {
        Some(Builtin::History)
    } else {
        None
    }
}

/// The command of the shell that `program` names, if it names one.
pub fn builtin_named(program: &str) -> (r: Option<Builtin>)
    ensures
        r == builtin_of(program@),
{
    if same_text(program, "cd") {
        Some(Builtin::Cd)
    } else if same_text(program, "pwd") {
        Some(Builtin::Pwd)
    } else if same_text(program, "pushd") {
        Some(Builtin::Pushd)
    } else if same_text(program, "popd") {
        Some(Builtin::Popd)
    } else if same_text(program, "history") {
        Some(Builtin::History)
    } else {
        None
    }
}

impl Session {
    /// The session that starts in the directory `cwd`.
    pub fn new(cwd: String) -> (r: Self)
        ensures
            r@ == SessionView::fresh(cwd@),
            r@.well_formed(),
    {
        let r = Session { cwd, exit_code: "0".to_owned(), dir_stack: Vec::new() };
        assert(r@.dir_stack =~= Seq::empty());
        r
    }

    /// Tells whether the session is well formed.
    pub fn is_well_formed(&self) -> (b: bool)
        ensures
            b == self@.well_formed(),
    {
        self.dir_stack.len() != 1
    }

    /// Records how the last program ended.
    pub fn set_status(&mut self, status: &str)
        ensures
            final(self)@ == old(self)@.with_status(status@),
    {
        self.exit_code = status.to_owned();
    }

    /// `cd` arrived in the directory `cwd`.
    pub fn enter(&mut self, cwd: String)
        ensures
            final(self)@ == old(self)@.entered(cwd@),
    {
        self.cwd = cwd;
    }

    /// `pushd` arrived in the directory `cwd`.
    pub fn push_directory(&mut self, cwd: String)
        ensures
            final(self)@ == old(self)@.pushed(cwd@),
            final(self)@.dir_stack.len() >= 2,
    {
        let ghost before = self@;
        if self.dir_stack.len() == 0 {
            let left = self.cwd.clone();
            self.dir_stack.push(left);
        }
        self.dir_stack.push(cwd.clone());
        self.cwd = cwd;
        assert(self@.dir_stack =~= before.pushed(cwd@).dir_stack);
    }

    /// The directory that `popd` goes back to, or the error that tells that
    /// there is none: the stack is empty. The error is also recorded as the
    /// way the last program ended; nothing else changes.
    pub fn begin_popd(&mut self) -> (r: Result<String, ExecError>)
        requires
            old(self)@.well_formed(),
        ensures
            old(self)@.dir_stack.len() == 0 ==> (r matches Err(e) && e@
                == ExecErrorView::EmptyDirectoryStack) && final(self)@ == old(self)@.with_status(
                "!"@,
            ),
            old(self)@.dir_stack.len() > 0 ==> (r matches Ok(target) && target@
                == old(self)@.pop_target()) && final(self)@ == old(self)@,
    {
        let n = self.dir_stack.len();
        if n == 0 {
            self.set_status("!");
            Err(ExecError::EmptyDirectoryStack)
        } else {
            Ok(self.dir_stack[n - 2].clone())
        }
    }

    /// `popd` arrived in the directory `cwd`.
    pub fn pop_directory(&mut self, cwd: String)
        ensures
            final(self)@ == old(self)@.popped(cwd@),
            final(self)@.well_formed(),
    {
        let ghost before = self@;
        if self.dir_stack.len() > 0 {
            self.dir_stack.pop();
        }
        if self.dir_stack.len() == 1 {
            self.dir_stack.pop();
        }
        self.cwd = cwd;
        assert(self@.dir_stack =~= before.popped(cwd@).dir_stack);
    }
}

/// After `pushd` and then `popd`, the directory stack is what it was. Where it
/// was empty, `popd` goes back to the directory that `pushd` left; and once
/// it has arrived there, the session is in the directory it was in before,
/// with an empty stack.
pub proof fn lemma_pushd_then_popd(s: SessionView, entered: Seq<char>, back: Seq<char>)
    requires
        s.well_formed(),
    ensures
        s.pushed(entered).dir_stack.len() >= 2,
        s.pushed(entered).popped(back).dir_stack == s.dir_stack,
        s.pushed(entered).popped(back).cwd == back,
        s.dir_stack.len() == 0 ==> s.pushed(entered).pop_target() == s.cwd,
        s.dir_stack.len() == 0 ==> s.pushed(entered).popped(s.cwd) == s,
        s.dir_stack.len() > 0 ==> s.pushed(entered).pop_target() == s.dir_stack.last(),
{
    let t = s.pushed(entered);
    if s.dir_stack.len() == 0 {
        assert(t.dir_stack =~= seq![s.cwd, entered]);
        assert(t.dir_stack.drop_last() =~= seq![s.cwd]);
        assert(t.popped(back).dir_stack =~= s.dir_stack);
    } else {
        assert(t.dir_stack.drop_last() =~= s.dir_stack);
    }
}

} // verus!
