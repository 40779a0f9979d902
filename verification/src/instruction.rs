//! One stage of a pipeline.

use vstd::prelude::*;
use crate::chars::texts;

verus! {

/// Where the output of a stage goes.
#[derive(Debug, Clone, Copy, PartialEq, Eq, Structural)]
pub enum StdoutTo {
    /// To the terminal.
    Stdout,
    /// Into a pipe that the next stage reads.
    Pipe,
    /// Into a file; `'o'` overwrites it, `'a'` appends to it.
    File(char),
}

/// The write mode that replaces what the file held.
pub const OVERWRITE: char = 'o';

/// The write mode that keeps what the file held and writes after it.
pub const APPEND: char = 'a';

/// One stage of a pipeline: a program with its arguments, and where its output
/// goes.
#[derive(Debug, Clone, PartialEq, Eq)]
pub struct Instruction {
    /// The program's name, followed by its arguments.
    pub command: Vec<String>,
    /// Where the output goes.
    pub stdout_to: StdoutTo,
    /// The file that receives the output; empty unless `stdout_to` is a file.
    pub filename: String,
    /// The positions in `command` that hold a nested command line, to be run
    /// and replaced by its output before the stage itself runs.
    pub subcommand_indices: Vec<usize>,
    /// Whether the stage before this one pipes its output into this one.
    pub read_from_pipe: bool,
}

/// An `Instruction` as a mathematical value.
pub struct InstructionView {
    pub command: Seq<Seq<char>>,
    pub stdout_to: StdoutTo,
    pub filename: Seq<char>,
    pub subcommand_indices: Seq<nat>,
    pub read_from_pipe: bool,
}

/// The positions that a sequence of indices holds.
pub open spec fn positions(v: Seq<usize>) -> Seq<nat> {
    v.map_values(|p: usize| p as nat)
}

/// The stages that a sequence of instructions holds.
pub open spec fn views(v: Seq<Instruction>) -> Seq<InstructionView> {
    v.map_values(|i: Instruction| i@)
}

impl View for Instruction {
    type V = InstructionView;

    open spec fn view(&self) -> InstructionView {
        InstructionView {
            command: texts(self.command@),
            stdout_to: self.stdout_to,
            filename: self.filename@,
            subcommand_indices: positions(self.subcommand_indices@),
            read_from_pipe: self.read_from_pipe,
        }
    }
}

impl InstructionView {
    /// A stage with nothing in it yet, which writes to the terminal.
    pub open spec fn fresh(read_from_pipe: bool) -> InstructionView {
        InstructionView {
            command: Seq::empty(),
            stdout_to: StdoutTo::Stdout,
            filename: Seq::empty(),
            subcommand_indices: Seq::empty(),
            read_from_pipe,
        }
    }

    /// The recorded positions are valid in `command` and strictly increasing,
    /// a file route carries one of the two write modes, and only a file route
    /// carries a file name.
    pub open spec fn well_formed(self) -> bool {
        &&& forall|k: int|
            0 <= k < self.subcommand_indices.len() ==> (#[trigger] self.subcommand_indices[k])
                < self.command.len()
        &&& forall|j: int, k: int|
            0 <= j < k < self.subcommand_indices.len() ==> self.subcommand_indices[j]
                < self.subcommand_indices[k]
        &&& self.stdout_to matches StdoutTo::File(mode) ==> mode == OVERWRITE || mode == APPEND
        &&& self.filename.len() > 0 ==> self.stdout_to is File
    }

    /// The stage after `text` was inserted as argument number `at`: the
    /// arguments from `at` on move up by one, and so does every recorded
    /// position that pointed at one of them.
    pub open spec fn inserted(self, at: int, text: Seq<char>) -> InstructionView {
        InstructionView {
            command: self.command.insert(at, text),
            subcommand_indices: self.subcommand_indices.map_values(
                |p: nat| if p >= at { p + 1 } else { p },
            ),
            ..self
        }
    }

    /// The stage after argument number `at` was replaced by `text`.
    pub open spec fn replaced(self, at: int, text: Seq<char>) -> InstructionView {
        InstructionView { command: self.command.update(at, text), ..self }
    }
}

impl Instruction {
    /// An empty stage that writes to the terminal.
    pub fn new() -> (r: Self)
        ensures
            r@ == InstructionView::fresh(false),
            r@.well_formed(),
    {
        let r = Self {
            command: Vec::new(),
            stdout_to: StdoutTo::Stdout,
            filename: String::new(),
            subcommand_indices: Vec::new(),
            read_from_pipe: false,
        };
        assert(r@.command =~= Seq::empty());
        assert(r@.subcommand_indices =~= Seq::empty());
        r
    }

    /// Tells whether the stage is well formed.
    pub fn is_well_formed(&self) -> (b: bool)
        ensures
            b == self@.well_formed(),
    {
        let count = self.command.len();
        let slots = self.subcommand_indices.len();
        let mut k: usize = 0;
        while k < slots
            invariant
                k <= slots,
                slots == self.subcommand_indices.len(),
                count == self.command.len(),
                forall|j: int| 0 <= j < k ==> (#[trigger] self.subcommand_indices[j]) < count,
                forall|j: int|
                    0 < j < k ==> self.subcommand_indices[j - 1] < (
                    #[trigger] self.subcommand_indices[j]),
            decreases slots - k,
        {
            if self.subcommand_indices[k] >= count {
                assert(self@.subcommand_indices[k as int] >= self@.command.len());
                return false;
            }
            if k > 0 && self.subcommand_indices[k - 1] >= self.subcommand_indices[k] {
                assert(!(self@.subcommand_indices[k - 1] < self@.subcommand_indices[k as int]));
                return false;
            }
            k += 1;
        }
        proof {
            lemma_adjacent_increasing(self@.subcommand_indices);
            assert(self@.command.len() == count);
        }
        let mode_known = match self.stdout_to {
            StdoutTo::File(mode) => mode == OVERWRITE || mode == APPEND,
            _ => true,
        };
        let named = match self.stdout_to {
            StdoutTo::File(_) => true,
            _ => self.filename.as_str().unicode_len() == 0,
        };
        mode_known && named
    }

    /// Inserts `text` as argument number `at`, and moves every recorded
    /// position from `at` on up by one, so that each still points at the
    /// argument it pointed at.
    pub fn insert_argument(&mut self, at: usize, text: String)
        requires
            old(self)@.well_formed(),
            at <= old(self).command.len(),
        ensures
            final(self)@ == old(self)@.inserted(at as int, text@),
            final(self)@.well_formed(),
    {
        let ghost before = self@;
        self.command.insert(at, text);
        assert(texts(self.command@) =~= before.command.insert(at as int, text@));
        let slots = self.subcommand_indices.len();
        let mut k: usize = 0;
        while k < slots
            invariant
                k <= slots,
                slots == self.subcommand_indices.len(),
                before.well_formed(),
                before.subcommand_indices.len() == slots,
                self.command.len() == before.command.len() + 1,
                forall|j: int|
                    0 <= j < k ==> (#[trigger] self.subcommand_indices[j]) == (
                    if before.subcommand_indices[j] >= at {
                        before.subcommand_indices[j] + 1
                    } else {
                        before.subcommand_indices[j]
                    }),
                forall|j: int|
                    k <= j < slots ==> (#[trigger] self.subcommand_indices[j])
                        == before.subcommand_indices[j],
                self.stdout_to == before.stdout_to,
                self.filename@ == before.filename,
                self.read_from_pipe == before.read_from_pipe,
                texts(self.command@) == before.command.insert(at as int, text@),
            decreases slots - k,
        {
            let p = self.subcommand_indices[k];
            assert(p == before.subcommand_indices[k as int]);
            if p >= at {
                self.subcommand_indices.set(k, p + 1);
            }
            k += 1;
        }
        assert(self@.subcommand_indices =~= before.inserted(at as int, text@).subcommand_indices);
    }

    /// Replaces argument number `at` by `text`.
    pub fn replace_argument(&mut self, at: usize, text: String)
        requires
            at < old(self).command.len(),
        ensures
            final(self)@ == old(self)@.replaced(at as int, text@),
    {
        let ghost before = self@;
        self.command.set(at, text);
        assert(texts(self.command@) =~= before.command.update(at as int, text@));
    }
}

/// A sequence whose neighbours increase strictly increases strictly throughout.
pub proof fn lemma_adjacent_increasing(s: Seq<nat>)
    requires
        forall|j: int| 0 < j < s.len() ==> s[j - 1] < #[trigger] s[j],
    ensures
        forall|j: int, k: int| 0 <= j < k < s.len() ==> s[j] < s[k],
{
    assert forall|j: int, k: int| 0 <= j < k < s.len() implies s[j] < s[k] by {
        lemma_increasing_between(s, j, k);
    }
}

proof fn lemma_increasing_between(s: Seq<nat>, j: int, k: int)
    requires
        forall|i: int| 0 < i < s.len() ==> s[i - 1] < #[trigger] s[i],
        0 <= j < k < s.len(),
    ensures
        s[j] < s[k],
    decreases k - j,
{
    if j + 1 < k {
        lemma_increasing_between(s, j, k - 1);
    }
}

} // verus!
