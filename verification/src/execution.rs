//! Running a line, one step at a time.
//!
//! The library decides, the caller acts. `Session::execute_input` parses a
//! line and says what to do first; the caller does it, reports what happened,
//! and `Execution::resume` says what to do next, until the line is completed
//! or has failed. Nothing here touches the operating system: processes, pipes,
//! files and directories are the caller's.

use vstd::prelude::*;
use crate::chars::{
    decimal_text, lines, push_text, same_text, signed_decimal, texts, trim, trimmed,
};
use crate::error::{message_of, ExecError, ExecErrorView};
use crate::instruction::{views, Instruction, InstructionView, StdoutTo};
use crate::session::{builtin_named, builtin_of, Builtin, Session, SessionView};
use crate::text_processing::{needs_home, parse_line, parsed, ParseError};
use crate::utils::{history_listing, listing, lookup_home};

verus! {

/// What the caller is asked to do.
#[derive(Debug, Clone, PartialEq, Eq)]
pub enum Action {
    /// Run the text as a line of its own, as a subcommand, and report its
    /// output with `Event::Text`.
    Subcommand(String),
    /// Change the working directory to the path, and report the working
    /// directory that results with `Event::Text`.
    ChangeDirectory(String),
    /// Read the history log, and report its text with `Event::Text`; a log
    /// that does not exist yet is an empty text.
    ReadHistory,
    /// Write `text` to the terminal, into a new pipe whose reading end is kept
    /// for the next stage, or into the file `filename` opened in the mode that
    /// `to` holds; then report `Event::Done`.
    Write { text: String, to: StdoutTo, filename: String },
    /// Start the program `command[0]` with the arguments that follow it. Its
    /// input is the reading end that was kept, where `piped_input` holds. Its
    /// output goes where `to` says, as for `Write`. Where `wait` holds, wait
    /// for the program to end and report how it ended; else report
    /// `Event::Done` once it runs.
    Spawn { command: Vec<String>, piped_input: bool, to: StdoutTo, filename: String, wait: bool },
    /// Read the reading end that was kept up to its end, and report what was
    /// read with `Event::Text`.
    Drain,
    /// The line is completed. A subcommand hands back its output.
    Completed(Option<String>),
    /// The line has failed, and its remaining stages do not run.
    Failed(ExecError),
}

/// What the caller reports.
#[derive(Debug, Clone, PartialEq, Eq)]
pub enum Event {
    /// The text that was asked for.
    Text(String),
    /// What was asked for is done.
    Done,
    /// The program ended with this exit code.
    Exited(i32),
    /// A signal ended the program.
    Signaled,
    /// The program could not be waited for.
    WaitFailed,
    /// The program could not be started.
    SpawnFailed,
    /// What was asked for has failed.
    Failed(ExecError),
}

/// What a run is waiting for.
#[derive(Debug, Clone, Copy, PartialEq, Eq, Structural)]
pub enum Awaiting {
    /// Nothing: the run is over.
    Nothing,
    /// The output of a subcommand.
    Subcommand,
    /// The working directory that a command of the shell arrived in.
    Directory(Builtin),
    /// The history log.
    History,
    /// The end of a write.
    Written,
    /// The start or the end of a program.
    Spawned,
    /// What the last pipe of a subcommand held.
    Drained,
}

/// The run of one line.
#[derive(Debug, Clone, PartialEq, Eq)]
pub struct Execution {
    /// The stages of the line.
    pub stages: Vec<Instruction>,
    /// The stage that runs next.
    pub index: usize,
    /// How many subcommands of that stage are resolved.
    pub slot: usize,
    /// What the run is waiting for.
    pub awaiting: Awaiting,
    /// Whether the caller keeps the reading end of a pipe.
    pub pending_pipe: bool,
    /// Whether the line runs as a subcommand.
    pub as_subcommand: bool,
    /// The home directory, where there is one.
    pub home: Option<String>,
}

/// The text that was found, if one was.
pub open spec fn found(text: Option<String>) -> Option<Seq<char>> {
    match text {
        Some(t) => Some(t@),
        None => None,
    }
}

/// An `Action` as a mathematical value.
pub enum ActionView {
    Subcommand(Seq<char>),
    ChangeDirectory(Seq<char>),
    ReadHistory,
    Write { text: Seq<char>, to: StdoutTo, filename: Seq<char> },
    Spawn {
        command: Seq<Seq<char>>,
        piped_input: bool,
        to: StdoutTo,
        filename: Seq<char>,
        wait: bool,
    },
    Drain,
    Completed(Option<Seq<char>>),
    Failed(ExecErrorView),
}

/// An `Event` as a mathematical value.
pub enum EventView {
    Text(Seq<char>),
    Done,
    Exited(int),
    Signaled,
    WaitFailed,
    SpawnFailed,
    Failed(ExecErrorView),
}

/// An `Execution` as a mathematical value.
pub struct ExecutionView {
    pub stages: Seq<InstructionView>,
    pub index: nat,
    pub slot: nat,
    pub awaiting: Awaiting,
    pub pending_pipe: bool,
    pub as_subcommand: bool,
    pub home: Option<Seq<char>>,
}

impl View for Action {
    type V = ActionView;

    open spec fn view(&self) -> ActionView {
        match *self {
            Action::Subcommand(text) => ActionView::Subcommand(text@),
            Action::ChangeDirectory(path) => ActionView::ChangeDirectory(path@),
            Action::ReadHistory => ActionView::ReadHistory,
            Action::Write { text, to, filename } => ActionView::Write {
                text: text@,
                to,
                filename: filename@,
            },
            Action::Spawn { command, piped_input, to, filename, wait } => ActionView::Spawn {
                command: texts(command@),
                piped_input,
                to,
                filename: filename@,
                wait,
            },
            Action::Drain => ActionView::Drain,
            Action::Completed(output) => ActionView::Completed(found(output)),
            Action::Failed(e) => ActionView::Failed(e@),
        }
    }
}

impl View for Event {
    type V = EventView;

    open spec fn view(&self) -> EventView {
        match *self {
            Event::Text(text) => EventView::Text(text@),
            Event::Done => EventView::Done,
            Event::Exited(code) => EventView::Exited(code as int),
            Event::Signaled => EventView::Signaled,
            Event::WaitFailed => EventView::WaitFailed,
            Event::SpawnFailed => EventView::SpawnFailed,
            Event::Failed(e) => EventView::Failed(e@),
        }
    }
}

impl View for Execution {
    type V = ExecutionView;

    open spec fn view(&self) -> ExecutionView {
        ExecutionView {
            stages: views(self.stages@),
            index: self.index as nat,
            slot: self.slot as nat,
            awaiting: self.awaiting,
            pending_pipe: self.pending_pipe,
            as_subcommand: self.as_subcommand,
            home: found(self.home),
        }
    }
}

/// A run, a session and an action: what a step leads to.
pub struct Outcome {
    pub run: ExecutionView,
    pub session: SessionView,
    pub action: ActionView,
}

/// The flag that makes `ls` colour its output.
pub open spec fn listing_flag() -> Seq<char> {
    "--color=auto"@
}

/// The stage as it is once the run reaches it: `ls` gets its flag as first
/// argument.
pub open spec fn prepared(stage: InstructionView) -> InstructionView {
    if stage.command.len() > 0 && stage.command[0] == "ls"@ {
        stage.inserted(1, listing_flag())
    } else {
        stage
    }
}

/// What a command of the shell hands on: nothing where it has nothing to say,
/// else what it says and a line ending.
pub open spec fn payload(output: Seq<char>) -> Seq<char> {
    if output.len() == 0 {
        output
    } else {
        output + "\r\n"@
    }
}

/// Where the output of a program goes: into its file where the stage names
/// one; else into a pipe where the stage says so or the line is a subcommand;
/// else to the terminal.
pub open spec fn wiring(stage: InstructionView, as_subcommand: bool) -> StdoutTo {
    if stage.stdout_to is File {
        stage.stdout_to
    } else if stage.stdout_to is Pipe || as_subcommand {
        StdoutTo::Pipe
    } else {
        StdoutTo::Stdout
    }
}

/// A stage that writes to a file says to which.
pub open spec fn names_its_file(stage: InstructionView) -> bool {
    stage.stdout_to is File ==> stage.filename.len() > 0
}

/// An action that writes to a file says to which.
pub open spec fn names_its_target(action: ActionView) -> bool {
    match action {
        ActionView::Write { to, filename, .. } => to is File ==> filename.len() > 0,
        ActionView::Spawn { to, filename, .. } => to is File ==> filename.len() > 0,
        _ => true,
    }
}

/// A line that completes hands back a text if it ran as a subcommand, and
/// nothing if it did not.
pub open spec fn hands_back(action: ActionView, as_subcommand: bool) -> bool {
    action matches ActionView::Completed(output) ==> (output is Some <==> as_subcommand)
}

impl ExecutionView {
    /// Every stage has a program and is well formed; the run stands at a
    /// stage or behind the last; and it waits for what its place calls for.
    pub open spec fn well_formed(self) -> bool {
        &&& self.index <= self.stages.len()
        &&& forall|k: int|
            0 <= k < self.stages.len() ==> (#[trigger] self.stages[k]).command.len() > 0
                && self.stages[k].well_formed()
        &&& self.index < self.stages.len() ==> self.slot
            <= self.stages[self.index as int].subcommand_indices.len()
        &&& self.awaiting is Subcommand ==> self.index < self.stages.len() && self.slot
            < self.stages[self.index as int].subcommand_indices.len()
        &&& (self.awaiting is Directory || self.awaiting is History || self.awaiting is Written
            || self.awaiting is Spawned) ==> self.index < self.stages.len() && names_its_file(
            self.stages[self.index as int],
        )
        &&& self.awaiting is Drained ==> self.as_subcommand
    }

    /// The stage that runs next.
    pub open spec fn stage(self) -> InstructionView {
        self.stages[self.index as int]
    }

    /// The run as it waits for `awaiting`.
    pub open spec fn waiting(self, awaiting: Awaiting) -> ExecutionView {
        ExecutionView { awaiting, ..self }
    }

    /// The run as it reaches stage number `index`.
    pub open spec fn entering(self, index: nat) -> ExecutionView {
        ExecutionView {
            stages: if index < self.stages.len() {
                self.stages.update(index as int, prepared(self.stages[index as int]))
            } else {
                self.stages
            },
            index,
            slot: 0,
            awaiting: Awaiting::Nothing,
            ..self
        }
    }

    /// The run once the subcommand it waited for has handed back `output`:
    /// the argument that held the subcommand now holds its output, without
    /// the whitespace around it.
    pub open spec fn resolved(self, output: Seq<char>) -> ExecutionView {
        let at = self.stage().subcommand_indices[self.slot as int] as int;
        ExecutionView {
            stages: self.stages.update(
                self.index as int,
                self.stage().replaced(at, trimmed(output)),
            ),
            slot: self.slot + 1,
            awaiting: Awaiting::Nothing,
            ..self
        }
    }
}

/// The line has failed.
pub open spec fn failed(run: ExecutionView, session: SessionView, e: ExecErrorView) -> Outcome {
    Outcome { run: run.waiting(Awaiting::Nothing), session, action: ActionView::Failed(e) }
}

/// The line is completed.
pub open spec fn completed(
    run: ExecutionView,
    session: SessionView,
    output: Option<Seq<char>>,
) -> Outcome {
    Outcome { run: run.waiting(Awaiting::Nothing), session, action: ActionView::Completed(output) }
}

/// What the end of the line leads to: a subcommand hands back what its last
/// pipe holds, or an empty text where it kept none; any other line hands back
/// nothing.
pub open spec fn finish(run: ExecutionView, session: SessionView) -> Outcome {
    if !run.as_subcommand {
        completed(run, session, None)
    } else if run.pending_pipe {
        Outcome { run: run.waiting(Awaiting::Drained), session, action: ActionView::Drain }
    } else {
        completed(run, session, Some(Seq::empty()))
    }
}

/// What a command of the shell that says `output` leads to, or `None` where
/// the stage is over without a word. A stage that pipes always writes, if
/// only to open the pipe; any other writes where there is something to write.
pub open spec fn emit(
    run: ExecutionView,
    session: SessionView,
    output: Seq<char>,
) -> Option<Outcome> {
    let stage = run.stage();
    let text = payload(output);
    if stage.stdout_to is Pipe {
        Some(
            Outcome {
                run: ExecutionView { pending_pipe: true, ..run.waiting(Awaiting::Written) },
                session,
                action: ActionView::Write { text, to: StdoutTo::Pipe, filename: Seq::empty() },
            },
        )
    } else if text.len() > 0 {
        Some(
            Outcome {
                run: run.waiting(Awaiting::Written),
                session,
                action: ActionView::Write { text, to: stage.stdout_to, filename: stage.filename },
            },
        )
    } else {
        None
    }
}

/// What asking for the directory `path` on behalf of `builtin` leads to.
pub open spec fn go(
    run: ExecutionView,
    session: SessionView,
    builtin: Builtin,
    path: Seq<char>,
) -> Outcome {
    Outcome {
        run: run.waiting(Awaiting::Directory(builtin)),
        session,
        action: ActionView::ChangeDirectory(path),
    }
}

/// What starting the program of the stage leads to.
pub open spec fn spawn(run: ExecutionView, session: SessionView) -> Outcome {
    let stage = run.stage();
    let to = wiring(stage, run.as_subcommand);
    let piped_input = stage.read_from_pipe && run.pending_pipe;
    Outcome {
        run: ExecutionView {
            pending_pipe: if to is Pipe {
                true
            } else if piped_input {
                false
            } else {
                run.pending_pipe
            },
            ..run.waiting(Awaiting::Spawned)
        },
        session,
        action: ActionView::Spawn {
            command: stage.command,
            piped_input,
            to,
            filename: stage.filename,
            wait: run.index + 1 == run.stages.len(),
        },
    }
}

/// What a stage whose subcommands are resolved leads to, or `None` where the
/// stage is over without a word.
pub open spec fn dispatch(run: ExecutionView, session: SessionView) -> Option<Outcome> {
    let stage = run.stage();
    let program = stage.command[0];
    if stage.stdout_to is File && stage.filename.len() == 0 {
        Some(failed(run, session.with_status("!"@), ExecErrorView::MissingOutputFile(program)))
    } else {
        match builtin_of(program) {
            Some(Builtin::Cd) => Some(
                if stage.command.len() > 1 {
                    go(run, session, Builtin::Cd, stage.command[1])
                } else {
                    match run.home {
                        Some(home) => go(run, session, Builtin::Cd, home),
                        None => failed(run, session, ExecErrorView::HomeUnavailable),
                    }
                },
            ),
            Some(Builtin::Pwd) => emit(run, session, session.cwd),
            Some(Builtin::Pushd) => Some(
                if stage.command.len() > 1 {
                    go(run, session, Builtin::Pushd, stage.command[1])
                } else {
                    failed(run, session.with_status("!"@), ExecErrorView::MissingDirectory)
                },
            ),
            Some(Builtin::Popd) => Some(
                if session.dir_stack.len() == 0 {
                    failed(run, session.with_status("!"@), ExecErrorView::EmptyDirectoryStack)
                } else {
                    go(run, session, Builtin::Popd, session.pop_target())
                },
            ),
            Some(Builtin::History) => Some(
                Outcome {
                    run: run.waiting(Awaiting::History),
                    session,
                    action: ActionView::ReadHistory,
                },
            ),
            None => Some(spawn(run, session)),
        }
    }
}

/// What the run leads to from where it stands: at the end of the line, its
/// end; at a stage with a subcommand to resolve, that subcommand; at any
/// other stage, what the stage calls for, and on to the next stage where it
/// calls for nothing.
pub open spec fn proceed(run: ExecutionView, session: SessionView) -> Outcome
    decreases run.stages.len() - run.index,
{
    if run.index >= run.stages.len() {
        finish(run, session)
    } else if run.slot < run.stage().subcommand_indices.len() {
        Outcome {
            run: run.waiting(Awaiting::Subcommand),
            session,
            action: ActionView::Subcommand(
                run.stage().command[run.stage().subcommand_indices[run.slot as int] as int],
            ),
        }
    } else {
        match dispatch(run, session) {
            Some(outcome) => outcome,
            None => proceed(run.entering(run.index + 1), session),
        }
    }
}

/// What a command of the shell that says `output` leads to.
pub open spec fn conclude(run: ExecutionView, session: SessionView, output: Seq<char>) -> Outcome {
    match emit(run, session, output) {
        Some(outcome) => outcome,
        None => proceed(run.entering(run.index + 1), session),
    }
}

/// How a program ended, as the session records it.
pub open spec fn status_of(event: EventView) -> Option<Seq<char>> {
    match event {
        EventView::Exited(code) => Some(signed_decimal(code)),
        EventView::Signaled => Some("!"@),
        EventView::WaitFailed => Some("?"@),
        EventView::SpawnFailed => Some("?"@),
        _ => None,
    }
}

/// What reporting `event` to the run leads to.
pub open spec fn step(run: ExecutionView, session: SessionView, event: EventView) -> Outcome {
    match (run.awaiting, event) {
        (Awaiting::Nothing, _) => failed(run, session, ExecErrorView::Unexpected),
        (_, EventView::Failed(e)) => failed(run, session, e),
        (Awaiting::Subcommand, EventView::Text(output)) => proceed(run.resolved(output), session),
        (Awaiting::Directory(Builtin::Cd), EventView::Text(cwd)) => conclude(
            run,
            session.entered(cwd),
            Seq::empty(),
        ),
        (Awaiting::Directory(Builtin::Pushd), EventView::Text(cwd)) => conclude(
            run,
            session.pushed(cwd),
            Seq::empty(),
        ),
        (Awaiting::Directory(Builtin::Popd), EventView::Text(cwd)) => conclude(
            run,
            session.popped(cwd),
            Seq::empty(),
        ),
        (Awaiting::History, EventView::Text(log)) => conclude(run, session, listing(lines(log))),
        (Awaiting::Written, EventView::Done) => proceed(run.entering(run.index + 1), session),
        (Awaiting::Spawned, EventView::Done) => proceed(run.entering(run.index + 1), session),
        (Awaiting::Spawned, EventView::SpawnFailed) => failed(
            run,
            session.with_status("?"@),
            ExecErrorView::CommandNotFound(run.stage().command[0]),
        ),
        (Awaiting::Spawned, EventView::Exited(_))
        | (Awaiting::Spawned, EventView::Signaled)
        | (Awaiting::Spawned, EventView::WaitFailed) => proceed(
            run.entering(run.index + 1),
            session.with_status(status_of(event)->0),
        ),
        (Awaiting::Drained, EventView::Text(raw)) => completed(run, session, Some(trimmed(raw))),
        _ => failed(run, session, ExecErrorView::Unexpected),
    }
}

/// What beginning to run the line `input` leads to, where `home` is what the
/// home directory was found to be.
pub open spec fn begin(
    session: SessionView,
    input: Seq<char>,
    as_subcommand: bool,
    home: Option<Seq<char>>,
) -> Outcome {
    let run = ExecutionView {
        stages: Seq::empty(),
        index: 0,
        slot: 0,
        awaiting: Awaiting::Nothing,
        pending_pipe: false,
        as_subcommand,
        home,
    };
    if home is None && needs_home(input) {
        failed(run, session, ExecErrorView::Parse(ParseError::HomeUnavailable))
    } else {
        let text = match home {
            Some(h) => h,
            None => Seq::empty(),
        };
        proceed(ExecutionView { stages: parsed(input, text), ..run }.entering(0), session)
    }
}

/// Wherever the run goes on from, it never asks for a file without a name,
/// it hands back a text exactly where the line is a subcommand, and it never
/// goes back to an earlier stage.
pub proof fn lemma_proceed_lawful(run: ExecutionView, session: SessionView)
    ensures
        names_its_target(proceed(run, session).action),
        hands_back(proceed(run, session).action, run.as_subcommand),
        proceed(run, session).run.as_subcommand == run.as_subcommand,
        proceed(run, session).run.index >= run.index,
        proceed(run, session).run.stages.len() == run.stages.len(),
    decreases run.stages.len() - run.index,
{
    if run.index < run.stages.len() && run.slot >= run.stage().subcommand_indices.len() {
        if dispatch(run, session) is None {
            lemma_proceed_lawful(run.entering(run.index + 1), session);
        }
    }
}

/// Whatever is reported to a run, it never asks for a file without a name,
/// and it hands back a text exactly where the line is a subcommand: a
/// subcommand always hands one back, if only an empty one. The stages run
/// from left to right: the run never goes back to an earlier stage.
pub proof fn lemma_step_lawful(run: ExecutionView, session: SessionView, event: EventView)
    requires
        run.well_formed(),
    ensures
        names_its_target(step(run, session, event).action),
        hands_back(step(run, session, event).action, run.as_subcommand),
        step(run, session, event).run.as_subcommand == run.as_subcommand,
        step(run, session, event).run.index >= run.index,
        step(run, session, event).run.stages.len() == run.stages.len(),
{
    let next = run.entering(run.index + 1);
    lemma_proceed_lawful(next, session);
    match event {
        EventView::Text(text) => {
            lemma_proceed_lawful(run.resolved(text), session);
            lemma_proceed_lawful(next, session.entered(text));
            lemma_proceed_lawful(next, session.pushed(text));
            lemma_proceed_lawful(next, session.popped(text));
        },
        _ => {
            if status_of(event) is Some {
                lemma_proceed_lawful(next, session.with_status(status_of(event)->0));
            }
        },
    }
}

/// However a line begins, the run never asks for a file without a name, and
/// it hands back a text exactly where the line is a subcommand.
pub proof fn lemma_begin_lawful(
    session: SessionView,
    input: Seq<char>,
    as_subcommand: bool,
    home: Option<Seq<char>>,
)
    ensures
        names_its_target(begin(session, input, as_subcommand, home).action),
        hands_back(begin(session, input, as_subcommand, home).action, as_subcommand),
        begin(session, input, as_subcommand, home).run.as_subcommand == as_subcommand,
{
    let run = ExecutionView {
        stages: Seq::empty(),
        index: 0,
        slot: 0,
        awaiting: Awaiting::Nothing,
        pending_pipe: false,
        as_subcommand,
        home,
    };
    let text = match home {
        Some(h) => h,
        None => Seq::empty(),
    };
    lemma_proceed_lawful(ExecutionView { stages: parsed(input, text), ..run }.entering(0), session);
}

/// A stage that writes to a file and names none fails before anything is
/// done for it, with an error that names its program; the session records
/// the failure and is otherwise as it was.
pub proof fn lemma_unnamed_file_fails(run: ExecutionView, session: SessionView)
    requires
        run.index < run.stages.len(),
        run.slot >= run.stage().subcommand_indices.len(),
        !names_its_file(run.stage()),
    ensures
        proceed(run, session) == failed(
            run,
            session.with_status("!"@),
            ExecErrorView::MissingOutputFile(run.stage().command[0]),
        ),
        message_of(ExecErrorView::MissingOutputFile(run.stage().command[0]))
            == "please specify target file for output of '"@ + run.stage().command[0] + "'"@,
{
}

/// `popd` on an empty directory stack fails, and leaves the working directory
/// and the stack as they were.
pub proof fn lemma_popd_on_empty_stack_fails(run: ExecutionView, session: SessionView)
    requires
        run.index < run.stages.len(),
        run.slot >= run.stage().subcommand_indices.len(),
        names_its_file(run.stage()),
        run.stage().command[0] == "popd"@,
        session.dir_stack.len() == 0,
    ensures
        proceed(run, session).action == ActionView::Failed(ExecErrorView::EmptyDirectoryStack),
        proceed(run, session).session == session.with_status("!"@),
        proceed(run, session).session.cwd == session.cwd,
        proceed(run, session).session.dir_stack == session.dir_stack,
{
    reveal_strlit("popd");
    reveal_strlit("cd");
    reveal_strlit("pwd");
    reveal_strlit("pushd");
    assert("popd"@.len() == 4);
    assert("popd"@[1] == 'o');
    assert("pushd"@[1] == 'u');
}

/// What a run, a session and an action stand for together.
pub open spec fn observed(run: Execution, session: Session, action: Action) -> Outcome {
    Outcome { run: run@, session: session@, action: action@ }
}

/// A copy of `v`.
fn copy_texts(v: &Vec<String>) -> (r: Vec<String>)
    ensures
        texts(r@) == texts(v@),
{
    let mut r: Vec<String> = Vec::new();
    let mut k: usize = 0;
    while k < v.len()
        invariant
            k <= v.len(),
            texts(r@) == texts(v@).take(k as int),
        decreases v.len() - k,
    {
        r.push(v[k].clone());
        assert(texts(r@) =~= texts(v@).take(k as int).push(v[k as int]@));
        assert(texts(v@).take(k + 1) =~= texts(v@).take(k as int).push(v[k as int]@));
        k += 1;
    }
    assert(texts(v@).take(v.len() as int) =~= texts(v@));
    r
}

impl Execution {
    /// Tells whether the run is well formed.
    pub fn is_well_formed(&self) -> (b: bool)
        ensures
            b == self@.well_formed(),
    {
        let count = self.stages.len();
        if self.index > count {
            return false;
        }
        let mut k: usize = 0;
        while k < count
            invariant
                k <= count,
                count == self.stages.len(),
                forall|j: int|
                    0 <= j < k ==> (#[trigger] self@.stages[j]).command.len() > 0
                        && self@.stages[j].well_formed(),
            decreases count - k,
        {
            assert(self@.stages[k as int] == self.stages[k as int]@);
            if self.stages[k].command.len() == 0 || !self.stages[k].is_well_formed() {
                return false;
            }
            k += 1;
        }
        if self.index == count {
            return match self.awaiting {
                Awaiting::Nothing => true,
                Awaiting::Drained => self.as_subcommand,
                _ => false,
            };
        }
        assert(self@.stage() == self.stages[self.index as int]@);
        let stage = &self.stages[self.index];
        let slots = stage.subcommand_indices.len();
        let named = match stage.stdout_to {
            StdoutTo::File(_) => stage.filename.as_str().unicode_len() != 0,
            _ => true,
        };
        self.slot <= slots && match self.awaiting {
            Awaiting::Nothing => true,
            Awaiting::Subcommand => self.slot < slots,
            Awaiting::Drained => self.as_subcommand,
            _ => named,
        }
    }

    /// The run reaches stage number `index`.
    fn enter(&mut self, index: usize)
        requires
            old(self)@.well_formed(),
            index <= old(self).stages.len(),
        ensures
            final(self)@ == old(self)@.entering(index as nat),
            final(self)@.well_formed(),
    {
        let ghost before = self@;
        self.slot = 0;
        self.awaiting = Awaiting::Nothing;
        self.index = index;
        if index < self.stages.len() {
            assert(before.stages[index as int] == self.stages[index as int]@);
            if same_text(self.stages[index].command[0].as_str(), "ls") {
                self.stages[index].insert_argument(1, "--color=auto".to_owned());
                assert(views(self.stages@) =~= before.stages.update(
                    index as int,
                    prepared(before.stages[index as int]),
                ));
            }
        }
        assert(self@.stages =~= before.entering(index as nat).stages);
    }

    /// The run ends, as `completed` says.
    fn complete(&mut self, output: Option<String>) -> (r: Action)
        ensures
            final(self)@ == old(self)@.waiting(Awaiting::Nothing),
            r@ == ActionView::Completed(found(output)),
    {
        self.awaiting = Awaiting::Nothing;
        Action::Completed(output)
    }

    /// The line has failed, as `failed` says.
    fn fail(&mut self, e: ExecError) -> (r: Action)
        ensures
            final(self)@ == old(self)@.waiting(Awaiting::Nothing),
            r@ == ActionView::Failed(e@),
    {
        self.awaiting = Awaiting::Nothing;
        Action::Failed(e)
    }

    /// The run asks for a directory, as `go` says.
    fn ask_directory(&mut self, builtin: Builtin, path: String) -> (r: Action)
        ensures
            final(self)@ == old(self)@.waiting(Awaiting::Directory(builtin)),
            r@ == ActionView::ChangeDirectory(path@),
    {
        self.awaiting = Awaiting::Directory(builtin);
        Action::ChangeDirectory(path)
    }

    /// A command of the shell says `output`, as `emit` says.
    fn emit(&mut self, session: &Session, output: &str) -> (r: Option<Action>)
        requires
            old(self)@.well_formed(),
            old(self).index < old(self).stages.len(),
            names_its_file(old(self)@.stage()),
        ensures
            match r {
                Some(action) => emit(old(self)@, session@, output@) == Some(
                    observed(*final(self), *session, action),
                ),
                None => emit(old(self)@, session@, output@) is None && final(self)@ == old(self)@,
            },
            final(self)@.well_formed(),
    {
        let ghost before = self@;
        assert(before.stage() == self.stages[self.index as int]@);
        let mut text = output.to_owned();
        if output.unicode_len() != 0 {
            push_text(&mut text, "\r\n");
        }
        assert(text@ == payload(output@));
        let stage = &self.stages[self.index];
        match stage.stdout_to {
            StdoutTo::Pipe => {
                self.awaiting = Awaiting::Written;
                self.pending_pipe = true;
                Some(Action::Write { text, to: StdoutTo::Pipe, filename: String::new() })
            },
            to => {
                if text.as_str().unicode_len() != 0 {
                    let filename = stage.filename.clone();
                    self.awaiting = Awaiting::Written;
                    Some(Action::Write { text, to, filename })
                } else {
                    None
                }
            },
        }
    }

    /// The program of the stage starts, as `spawn` says.
    fn spawn(&mut self, session: &Session) -> (r: Action)
        requires
            old(self)@.well_formed(),
            old(self).index < old(self).stages.len(),
            names_its_file(old(self)@.stage()),
        ensures
            spawn(old(self)@, session@) == observed(*final(self), *session, r),
            final(self)@.well_formed(),
    {
        let ghost before = self@;
        assert(before.stage() == self.stages[self.index as int]@);
        let stage = &self.stages[self.index];
        let to = match stage.stdout_to {
            StdoutTo::File(mode) => StdoutTo::File(mode),
            StdoutTo::Pipe => StdoutTo::Pipe,
            StdoutTo::Stdout => if self.as_subcommand {
                StdoutTo::Pipe
            } else {
                StdoutTo::Stdout
            },
        };
        let piped_input = stage.read_from_pipe && self.pending_pipe;
        let command = copy_texts(&stage.command);
        let filename = stage.filename.clone();
        let wait = self.index + 1 == self.stages.len();
        let piping = match to {
            StdoutTo::Pipe => true,
            _ => false,
        };
        if piping {
            self.pending_pipe = true;
        } else if piped_input {
            self.pending_pipe = false;
        }
        self.awaiting = Awaiting::Spawned;
        Action::Spawn { command, piped_input, to, filename, wait }
    }

    /// The stage runs, as `dispatch` says.
    fn dispatch(&mut self, session: &mut Session) -> (r: Option<Action>)
        requires
            old(self)@.well_formed(),
            old(session)@.well_formed(),
            old(self).index < old(self).stages.len(),
        ensures
            match r {
                Some(action) => dispatch(old(self)@, old(session)@) == Some(
                    observed(*final(self), *final(session), action),
                ),
                None => dispatch(old(self)@, old(session)@) is None && final(self)@ == old(self)@
                    && final(session)@ == old(session)@,
            },
            final(self)@.well_formed(),
            final(session)@.well_formed(),
    {
        let ghost before = self@;
        assert(before.stage() == self.stages[self.index as int]@);
        let stage = &self.stages[self.index];
        let program = stage.command[0].clone();
        assert(program@ == before.stage().command[0]);
        let unnamed = match stage.stdout_to {
            StdoutTo::File(_) => stage.filename.as_str().unicode_len() == 0,
            _ => false,
        };
        if unnamed {
            session.set_status("!");
            return Some(self.fail(ExecError::MissingOutputFile(program)));
        }
        let arguments = stage.command.len();
        match builtin_named(program.as_str()) {
            Some(Builtin::Cd) => {
                if arguments > 1 {
                    let path = stage.command[1].clone();
                    assert(path@ == before.stage().command[1]);
                    Some(self.ask_directory(Builtin::Cd, path))
                } else {
                    match &self.home {
                        Some(home) => {
                            let path = home.clone();
                            Some(self.ask_directory(Builtin::Cd, path))
                        },
                        None => Some(self.fail(ExecError::HomeUnavailable)),
                    }
                }
            },
            Some(Builtin::Pwd) => {
                let cwd = session.cwd.clone();
                self.emit(session, cwd.as_str())
            },
            Some(Builtin::Pushd) => {
                if arguments > 1 {
                    let path = stage.command[1].clone();
                    assert(path@ == before.stage().command[1]);
                    Some(self.ask_directory(Builtin::Pushd, path))
                } else {
                    session.set_status("!");
                    Some(self.fail(ExecError::MissingDirectory))
                }
            },
            Some(Builtin::Popd) => {
                match session.begin_popd() {
                    Ok(path) => Some(self.ask_directory(Builtin::Popd, path)),
                    Err(e) => Some(self.fail(e)),
                }
            },
            Some(Builtin::History) => {
                self.awaiting = Awaiting::History;
                Some(Action::ReadHistory)
            },
            None => Some(self.spawn(session)),
        }
    }

    /// The run goes on from where it stands, as `proceed` says.
    fn proceed(&mut self, session: &mut Session) -> (r: Action)
        requires
            old(self)@.well_formed(),
            old(session)@.well_formed(),
        ensures
            observed(*final(self), *final(session), r) == proceed(old(self)@, old(session)@),
            final(self)@.well_formed(),
            final(session)@.well_formed(),
        decreases old(self).stages.len() - old(self).index,
    {
        let ghost before = self@;
        if self.index >= self.stages.len() {
            if !self.as_subcommand {
                self.complete(None)
            } else if self.pending_pipe {
                self.awaiting = Awaiting::Drained;
                Action::Drain
            } else {
                self.complete(Some(String::new()))
            }
        } else {
            assert(before.stage() == self.stages[self.index as int]@);
            let stage = &self.stages[self.index];
            if self.slot < stage.subcommand_indices.len() {
                let at = stage.subcommand_indices[self.slot];
                assert(before.stage().subcommand_indices[self.slot as int] == at);
                let text = stage.command[at].clone();
                assert(text@ == before.stage().command[at as int]);
                self.awaiting = Awaiting::Subcommand;
                Action::Subcommand(text)
            } else {
                match self.dispatch(session) {
                    Some(action) => action,
                    None => {
                        let next = self.index + 1;
                        self.enter(next);
                        self.proceed(session)
                    },
                }
            }
        }
    }

    /// A command of the shell says `output`, as `conclude` says.
    fn conclude(&mut self, session: &mut Session, output: &str) -> (r: Action)
        requires
            old(self)@.well_formed(),
            old(session)@.well_formed(),
            old(self).index < old(self).stages.len(),
            names_its_file(old(self)@.stage()),
        ensures
            observed(*final(self), *final(session), r) == conclude(
                old(self)@,
                old(session)@,
                output@,
            ),
            final(self)@.well_formed(),
            final(session)@.well_formed(),
    {
        match self.emit(session, output) {
            Some(action) => action,
            None => {
                let next = self.index + 1;
                self.enter(next);
                self.proceed(session)
            },
        }
    }

    /// The run goes on to the next stage.
    fn next_stage(&mut self, session: &mut Session) -> (r: Action)
        requires
            old(self)@.well_formed(),
            old(session)@.well_formed(),
            old(self).index < old(self).stages.len(),
        ensures
            observed(*final(self), *final(session), r) == proceed(
                old(self)@.entering(old(self)@.index + 1),
                old(session)@,
            ),
            final(self)@.well_formed(),
            final(session)@.well_formed(),
    {
        let next = self.index + 1;
        self.enter(next);
        self.proceed(session)
    }

    /// Takes the report of what the caller did, and says what to do next.
    ///
    /// The run, the session and the action that result are those that `step`
    /// gives for the run, the session and the report.
    pub fn resume(&mut self, session: &mut Session, event: Event) -> (r: Action)
        requires
            old(self)@.well_formed(),
            old(session)@.well_formed(),
        ensures
            observed(*final(self), *final(session), r) == step(old(self)@, old(session)@, event@),
            final(self)@.well_formed(),
            final(session)@.well_formed(),
            names_its_target(r@),
            hands_back(r@, old(self).as_subcommand),
    {
        let ghost before = self@;
        proof {
            lemma_step_lawful(old(self)@, old(session)@, event@);
            reveal_strlit("");
            assert(""@ =~= Seq::<char>::empty());
        }
        match self.awaiting {
            Awaiting::Nothing => self.fail(ExecError::Unexpected),
            awaiting => match event {
                Event::Failed(e) => self.fail(e),
                Event::Text(text) => match awaiting {
                    Awaiting::Subcommand => {
                        assert(before.stage() == self.stages[self.index as int]@);
                        assert(self.slot < self.stages[self.index as int].subcommand_indices.len());
                        let at = self.stages[self.index].subcommand_indices[self.slot];
                        assert(before.stage().subcommand_indices[self.slot as int] == at);
                        let output = trim(text.as_str());
                        self.stages[self.index].replace_argument(at, output);
                        self.slot = self.slot + 1;
                        self.awaiting = Awaiting::Nothing;
                        assert(self@.stages =~= before.resolved(text@).stages);
                        assert(self@ == before.resolved(text@));
                        assert(self@.well_formed());
                        self.proceed(session)
                    },
                    Awaiting::Directory(Builtin::Cd) => {
                        session.enter(text);
                        self.conclude(session, "")
                    },
                    Awaiting::Directory(Builtin::Pushd) => {
                        session.push_directory(text);
                        self.conclude(session, "")
                    },
                    Awaiting::Directory(Builtin::Popd) => {
                        session.pop_directory(text);
                        self.conclude(session, "")
                    },
                    Awaiting::History => {
                        let output = history_listing(text.as_str());
                        self.conclude(session, output.as_str())
                    },
                    Awaiting::Drained => {
                        let output = trim(text.as_str());
                        self.complete(Some(output))
                    },
                    _ => self.fail(ExecError::Unexpected),
                },
                Event::Done => match awaiting {
                    Awaiting::Written | Awaiting::Spawned => self.next_stage(session),
                    _ => self.fail(ExecError::Unexpected),
                },
                Event::SpawnFailed => match awaiting {
                    Awaiting::Spawned => {
                        let program = self.stages[self.index].command[0].clone();
                        assert(before.stage() == self.stages[self.index as int]@);
                        session.set_status("?");
                        self.fail(ExecError::CommandNotFound(program))
                    },
                    _ => self.fail(ExecError::Unexpected),
                },
                Event::Exited(code) => match awaiting {
                    Awaiting::Spawned => {
                        let status = decimal_text(code);
                        session.set_status(status.as_str());
                        self.next_stage(session)
                    },
                    _ => self.fail(ExecError::Unexpected),
                },
                Event::Signaled => match awaiting {
                    Awaiting::Spawned => {
                        session.set_status("!");
                        self.next_stage(session)
                    },
                    _ => self.fail(ExecError::Unexpected),
                },
                Event::WaitFailed => match awaiting {
                    Awaiting::Spawned => {
                        session.set_status("?");
                        self.next_stage(session)
                    },
                    _ => self.fail(ExecError::Unexpected),
                },
            },
        }
    }
}

impl Session {
    /// Begins to run the line `input`, where `home` is what the home
    /// directory was found to be: parses the line, and says what to do first.
    ///
    /// The run, the session and the action that result are those that `begin`
    /// gives.
    pub fn execute_line(
        &mut self,
        input: &str,
        as_subcommand: bool,
        home: Option<String>,
    ) -> (r: (Execution, Action))
        requires
            old(self)@.well_formed(),
        ensures
            observed(r.0, *final(self), r.1) == begin(
                old(self)@,
                input@,
                as_subcommand,
                found(home),
            ),
            r.0@.well_formed(),
            final(self)@.well_formed(),
            names_its_target(r.1@),
            hands_back(r.1@, as_subcommand),
    {
        proof {
            lemma_begin_lawful(old(self)@, input@, as_subcommand, found(home));
        }
        let parse = match &home {
            Some(h) => parse_line(input, Some(h.as_str())),
            None => parse_line(input, None),
        };
        let mut run = Execution {
            stages: Vec::new(),
            index: 0,
            slot: 0,
            awaiting: Awaiting::Nothing,
            pending_pipe: false,
            as_subcommand,
            home,
        };
        assert(run@.stages =~= Seq::empty());
        match parse {
            Err(e) => {
                let action = run.fail(ExecError::Parse(e));
                (run, action)
            },
            Ok(stages) => {
                run.stages = stages;
                run.enter(0);
                let action = run.proceed(self);
                (run, action)
            },
        }
    }

    /// Begins to run the line `input`: finds the home directory, parses the
    /// line, and says what to do first.
    ///
    /// The run, the session and the action that result are those that `begin`
    /// gives for the home directory that was found, whatever it is.
    pub fn execute_input(&mut self, input: &str, as_subcommand: bool) -> (r: (Execution, Action))
        requires
            old(self)@.well_formed(),
        ensures
            exists|home: Option<Seq<char>>|
                observed(r.0, *final(self), r.1) == begin(old(self)@, input@, as_subcommand, home),
            r.0@.well_formed(),
            final(self)@.well_formed(),
            names_its_target(r.1@),
            hands_back(r.1@, as_subcommand),
    {
        let home = lookup_home();
        self.execute_line(input, as_subcommand, home)
    }
}

} // verus!
