//! From a line of text to the stages of a pipeline.
//!
//! The line is read once, from left to right. Whitespace separates tokens, a
//! pair of quotes keeps what stands between them as plain text, `|` ends a
//! stage, `>` and `>>` send the stage's output to a file, `~` stands for the
//! home directory, and `${` ... `}` holds a nested command line, which is kept
//! as it stands and recorded as such.

use vstd::prelude::*;
use crate::chars::{chars_of, is_whitespace, push_chars, whitespace};
use crate::instruction::{views, Instruction, InstructionView, StdoutTo, APPEND, OVERWRITE};
use crate::utils::lookup_home;

verus! {

/// Why a line could not be parsed.
#[derive(Debug, Clone, Copy, PartialEq, Eq, Structural)]
pub enum ParseError {
    /// The line asks for the home directory, and there is none to be had.
    HomeUnavailable,
}

/// What the scan knows after reading part of a line.
pub struct Scan {
    /// The stages that are complete.
    pub done: Seq<InstructionView>,
    /// The stage that is being built.
    pub current: InstructionView,
    /// The token that is being built.
    pub token: Seq<char>,
    /// The quote character that is open, if one is.
    pub quote: Option<char>,
    /// How many nested command lines are open.
    pub depth: nat,
    /// Whether the home directory was asked for.
    pub consulted: bool,
}

impl Scan {
    /// The scan before the first character.
    pub open spec fn start() -> Scan {
        Scan {
            done: Seq::empty(),
            current: InstructionView::fresh(false),
            token: Seq::empty(),
            quote: None,
            depth: 0,
            consulted: false,
        }
    }

    /// The token grows by one character.
    pub open spec fn keep(self, c: char) -> Scan {
        Scan { token: self.token.push(c), ..self }
    }

    /// The token ends: the stage takes it up, and a new token begins.
    pub open spec fn flush(self) -> Scan {
        Scan { current: taken_up(self.current, self.token), token: Seq::empty(), ..self }
    }

    /// The stage ends at a pipe. A stage without arguments is no stage: it
    /// stays as it is. Any other is complete; unless it writes to a file its
    /// output goes to the stage that follows.
    pub open spec fn seal(self) -> Scan {
        if self.current.command.len() == 0 {
            self
        } else {
            let route = if self.current.stdout_to is Stdout {
                StdoutTo::Pipe
            } else {
                self.current.stdout_to
            };
            Scan {
                done: self.done.push(InstructionView { stdout_to: route, ..self.current }),
                current: InstructionView::fresh(route is Pipe),
                ..self
            }
        }
    }

    /// The stage's output is sent to a file, unless a file was named before.
    pub open spec fn redirect(self, mode: char) -> Scan {
        if self.current.stdout_to is File {
            self
        } else {
            Scan {
                current: InstructionView { stdout_to: StdoutTo::File(mode), ..self.current },
                ..self
            }
        }
    }

    /// The outermost nested command line ends: what was gathered becomes the
    /// next argument, and its position is recorded.
    pub open spec fn close(self) -> Scan {
        Scan {
            current: InstructionView {
                command: self.current.command.push(self.token),
                subcommand_indices: self.current.subcommand_indices.push(
                    self.current.command.len(),
                ),
                ..self.current
            },
            token: Seq::empty(),
            depth: 0,
            ..self
        }
    }

    /// The line ends: the token ends, and the stage, if it has arguments, is
    /// complete.
    pub open spec fn finish(self) -> Scan {
        let s = self.flush();
        if s.current.command.len() == 0 {
            s
        } else {
            Scan { done: s.done.push(s.current), current: InstructionView::fresh(false), ..s }
        }
    }
}

/// The stage after the token `token` ended. An empty token leaves the stage as
/// it is. Any other becomes the file name of a stage that writes to a file,
/// and the next argument of a stage that does not.
pub open spec fn taken_up(stage: InstructionView, token: Seq<char>) -> InstructionView {
    if token.len() == 0 {
        stage
    } else if stage.stdout_to is File {
        InstructionView { filename: token, ..stage }
    } else {
        InstructionView { command: stage.command.push(token), ..stage }
    }
}

/// Whether `${` stands at position `i` of `input`.
pub open spec fn opens_at(input: Seq<char>, i: int) -> bool {
    0 <= i && i + 1 < input.len() && input[i] == '$' && input[i + 1] == '{'
}

/// Whether `>>` stands at position `i` of `input`.
pub open spec fn doubled_at(input: Seq<char>, i: int) -> bool {
    0 <= i && i + 1 < input.len() && input[i] == '>' && input[i + 1] == '>'
}

/// How many characters the scan reads at position `i`: two for `${` outside
/// quotes and for `>>` outside quotes and nested command lines, else one.
pub open spec fn width(s: Scan, input: Seq<char>, i: int) -> int {
    if s.depth > 0 {
        if opens_at(input, i) {
            2
        } else {
            1
        }
    } else if s.quote is Some {
        1
    } else if opens_at(input, i) || doubled_at(input, i) {
        2
    } else {
        1
    }
}

/// The scan after reading what stands at position `i`.
pub open spec fn advance(s: Scan, input: Seq<char>, i: int, home: Seq<char>) -> Scan {
    let c = input[i];
    if s.depth > 0 {
        if opens_at(input, i) {
            Scan { depth: s.depth + 1, token: s.token.push('$').push('{'), ..s }
        } else if c == '}' {
            if s.depth == 1 {
                s.close()
            } else {
                Scan { depth: (s.depth - 1) as nat, token: s.token.push(c), ..s }
            }
        } else {
            s.keep(c)
        }
    } else if s.quote is Some {
        if s.quote == Some(c) {
            Scan { quote: None, ..s }
        } else {
            s.keep(c)
        }
    } else if c == '"' || c == '\'' {
        Scan { quote: Some(c), ..s }
    } else if is_whitespace(c) {
        s.flush()
    } else if c == '|' {
        s.flush().seal()
    } else if c == '~' {
        Scan { token: s.token + home, consulted: true, ..s }
    } else if c == '>' {
        s.redirect(if doubled_at(input, i) { APPEND } else { OVERWRITE })
    } else if opens_at(input, i) {
        Scan { depth: 1, ..s }
    } else {
        s.keep(c)
    }
}

/// The scan after reading `input` from position `i` to the end, starting
/// from `s`.
pub open spec fn scan_from(input: Seq<char>, home: Seq<char>, i: int, s: Scan) -> Scan
    decreases input.len() - i,
{
    if 0 <= i < input.len() {
        scan_from(input, home, i + width(s, input, i), advance(s, input, i, home))
    } else {
        s
    }
}

/// The stages of the line `input`, where `~` stands for `home`.
pub open spec fn parsed(input: Seq<char>, home: Seq<char>) -> Seq<InstructionView> {
    scan_from(input, home, 0, Scan::start()).finish().done
}

/// Whether the line `input` asks for the home directory: whether a `~` stands
/// in it outside quotes and outside nested command lines.
pub open spec fn needs_home(input: Seq<char>) -> bool {
    scan_from(input, Seq::empty(), 0, Scan::start()).consulted
}

/// What holds of the stages of every line: each has a program, each is well
/// formed, and a stage reads from the stage before it exactly where that
/// stage's output goes into a pipe.
pub open spec fn is_pipeline(stages: Seq<InstructionView>) -> bool {
    forall|k: int|
        0 <= k < stages.len() ==> {
            &&& (#[trigger] stages[k]).command.len() > 0
            &&& stages[k].well_formed()
            &&& stages[k].read_from_pipe == (k > 0 && stages[k - 1].stdout_to is Pipe)
        }
}

impl Scan {
    /// What holds of the scan at every position of every line.
    pub open spec fn sound(self) -> bool {
        &&& is_pipeline(self.done)
        &&& self.current.well_formed()
        &&& self.current.stdout_to !is Pipe
        &&& self.current.read_from_pipe == (self.done.len() > 0
            && self.done.last().stdout_to is Pipe)
        &&& self.quote is Some ==> self.depth == 0
    }
}

proof fn lemma_advance_sound(s: Scan, input: Seq<char>, i: int, home: Seq<char>)
    requires
        s.sound(),
        0 <= i < input.len(),
    ensures
        advance(s, input, i, home).sound(),
{
    let t = advance(s, input, i, home);
    let c = input[i];
    if s.depth == 0 && s.quote is None && c == '|' {
        let f = s.flush();
        assert(f.current.well_formed());
        if f.current.command.len() > 0 {
            let sealed = t.done.last();
            assert(sealed.well_formed());
            assert forall|k: int| 0 <= k < t.done.len() implies {
                &&& (#[trigger] t.done[k]).command.len() > 0
                &&& t.done[k].well_formed()
                &&& t.done[k].read_from_pipe == (k > 0 && t.done[k - 1].stdout_to is Pipe)
            } by {
                if k < s.done.len() {
                    assert(t.done[k] == s.done[k]);
                    if k > 0 {
                        assert(t.done[k - 1] == s.done[k - 1]);
                    }
                }
            }
        }
    }
}

/// Soundness is kept from any position to the end of the line.
proof fn lemma_scan_sound(input: Seq<char>, home: Seq<char>, i: int, s: Scan)
    requires
        s.sound(),
    ensures
        scan_from(input, home, i, s).sound(),
    decreases input.len() - i,
{
    if 0 <= i < input.len() {
        lemma_advance_sound(s, input, i, home);
        lemma_scan_sound(input, home, i + width(s, input, i), advance(s, input, i, home));
    }
}

/// The stages of every line form a pipeline: none is empty, each is well
/// formed, and each reads from a pipe exactly where the one before it writes
/// into one.
pub proof fn lemma_parsed_is_pipeline(input: Seq<char>, home: Seq<char>)
    ensures
        is_pipeline(parsed(input, home)),
{
    lemma_scan_sound(input, home, 0, Scan::start());
    let s = scan_from(input, home, 0, Scan::start());
    let f = s.flush();
    let t = s.finish();
    assert(f.current.well_formed());
    assert forall|k: int| 0 <= k < t.done.len() implies {
        &&& (#[trigger] t.done[k]).command.len() > 0
        &&& t.done[k].well_formed()
        &&& t.done[k].read_from_pipe == (k > 0 && t.done[k - 1].stdout_to is Pipe)
    } by {
        if k < s.done.len() {
            assert(t.done[k] == s.done[k]);
            if k > 0 {
                assert(t.done[k - 1] == s.done[k - 1]);
            }
        }
    }
}

/// Once the home directory was asked for, it stays asked for.
proof fn lemma_consulted_stays(input: Seq<char>, home: Seq<char>, i: int, s: Scan)
    requires
        s.consulted,
    ensures
        scan_from(input, home, i, s).consulted,
    decreases input.len() - i,
{
    if 0 <= i < input.len() {
        lemma_consulted_stays(input, home, i + width(s, input, i), advance(s, input, i, home));
    }
}

proof fn lemma_home_unread(input: Seq<char>, first: Seq<char>, second: Seq<char>, i: int, s: Scan)
    requires
        !scan_from(input, first, i, s).consulted,
    ensures
        scan_from(input, first, i, s) == scan_from(input, second, i, s),
    decreases input.len() - i,
{
    if 0 <= i < input.len() {
        let a = advance(s, input, i, first);
        let b = advance(s, input, i, second);
        if a.consulted {
            lemma_consulted_stays(input, first, i + width(s, input, i), a);
        }
        assert(a == b);
        lemma_home_unread(input, first, second, i + width(s, input, i), a);
    }
}

/// Whether a line asks for the home directory does not depend on what the
/// home directory is; and the stages of a line that does not ask for it do
/// not depend on it either.
pub proof fn lemma_home_matters_only_where_needed(
    input: Seq<char>,
    first: Seq<char>,
    second: Seq<char>,
)
    ensures
        scan_from(input, first, 0, Scan::start()).consulted == needs_home(input),
        !needs_home(input) ==> parsed(input, first) == parsed(input, second),
{
    let empty = Seq::<char>::empty();
    let a = scan_from(input, first, 0, Scan::start());
    if !a.consulted {
        lemma_home_unread(input, first, empty, 0, Scan::start());
    }
    if !needs_home(input) {
        lemma_home_unread(input, empty, first, 0, Scan::start());
        lemma_home_unread(input, empty, second, 0, Scan::start());
    }
}

/// Whether `c` is a character without a meaning of its own: no whitespace, no
/// quote, and none of `|`, `~`, `>`, `$`.
pub open spec fn is_plain(c: char) -> bool {
    !is_whitespace(c) && c != '"' && c != '\'' && c != '|' && c != '~' && c != '>' && c != '$'
}

proof fn lemma_scan_plain(input: Seq<char>, home: Seq<char>, i: int, s: Scan)
    requires
        0 <= i <= input.len(),
        s.depth == 0,
        s.quote is None,
        forall|k: int| i <= k < input.len() ==> is_plain(#[trigger] input[k]),
    ensures
        scan_from(input, home, i, s) == (Scan {
            token: s.token + input.subrange(i, input.len() as int),
            ..s
        }),
    decreases input.len() - i,
{
    if i < input.len() {
        assert(is_plain(input[i]));
        lemma_scan_plain(input, home, i + 1, s.keep(input[i]));
        assert(s.token.push(input[i]) + input.subrange(i + 1, input.len() as int) =~= s.token
            + input.subrange(i, input.len() as int));
    } else {
        assert(s.token + input.subrange(i, input.len() as int) =~= s.token);
    }
}

proof fn lemma_scan_blank(input: Seq<char>, home: Seq<char>, i: int)
    requires
        0 <= i <= input.len(),
        forall|k: int| i <= k < input.len() ==> is_whitespace(#[trigger] input[k]),
    ensures
        scan_from(input, home, i, Scan::start()) == Scan::start(),
    decreases input.len() - i,
{
    if i < input.len() {
        assert(is_whitespace(input[i]));
        lemma_scan_blank(input, home, i + 1);
    }
}

/// A word of characters without a meaning of their own is a line of one
/// stage: the word is its program, and its output goes to the terminal.
pub proof fn lemma_plain_word(word: Seq<char>, home: Seq<char>)
    requires
        word.len() > 0,
        forall|k: int| 0 <= k < word.len() ==> is_plain(#[trigger] word[k]),
    ensures
        parsed(word, home) == seq![
            InstructionView { command: seq![word], ..InstructionView::fresh(false) },
        ],
        !needs_home(word),
{
    lemma_scan_plain(word, home, 0, Scan::start());
    lemma_scan_plain(word, Seq::empty(), 0, Scan::start());
    assert(Seq::<char>::empty() + word.subrange(0, word.len() as int) =~= word);
    let stage = InstructionView { command: seq![word], ..InstructionView::fresh(false) };
    assert(Seq::<Seq<char>>::empty().push(word) =~= seq![word]);
    assert(Seq::<InstructionView>::empty().push(stage) =~= seq![stage]);
}

/// A line of nothing but whitespace has no stages.
pub proof fn lemma_blank_line(input: Seq<char>, home: Seq<char>)
    requires
        forall|k: int| 0 <= k < input.len() ==> is_whitespace(#[trigger] input[k]),
    ensures
        parsed(input, home) == Seq::<InstructionView>::empty(),
        !needs_home(input),
{
    lemma_scan_blank(input, home, 0);
    lemma_scan_blank(input, Seq::empty(), 0);
}

/// Whether the text `b` can follow the text `a` without its first character
/// joining the last of `a`: they do not meet in `${` or in `>>`.
pub open spec fn apart(a: Seq<char>, b: Seq<char>) -> bool {
    a.len() == 0 || b.len() == 0 || (!(a.last() == '$' && b[0] == '{') && !(a.last() == '>'
        && b[0] == '>'))
}

proof fn lemma_scan_beyond(a: Seq<char>, b: Seq<char>, home: Seq<char>, j: int, s: Scan)
    requires
        0 <= j <= b.len(),
    ensures
        scan_from(a + b, home, a.len() + j, s) == scan_from(b, home, j, s),
    decreases b.len() - j,
{
    if j < b.len() {
        let at = a.len() + j;
        assert((a + b)[at] == b[j]);
        if j + 1 < b.len() {
            assert((a + b)[at + 1] == b[j + 1]);
        }
        assert(opens_at(a + b, at) == opens_at(b, j));
        assert(doubled_at(a + b, at) == doubled_at(b, j));
        assert(advance(s, a + b, at, home) == advance(s, b, j, home));
        lemma_scan_beyond(a, b, home, j + width(s, b, j), advance(s, b, j, home));
    }
}

proof fn lemma_scan_within(a: Seq<char>, b: Seq<char>, home: Seq<char>, i: int, s: Scan)
    requires
        0 <= i <= a.len(),
        apart(a, b),
    ensures
        scan_from(a + b, home, i, s) == scan_from(
            a + b,
            home,
            a.len() as int,
            scan_from(a, home, i, s),
        ),
    decreases a.len() - i,
{
    if i < a.len() {
        assert((a + b)[i] == a[i]);
        if i + 1 < a.len() {
            assert((a + b)[i + 1] == a[i + 1]);
        } else if b.len() > 0 {
            assert((a + b)[i + 1] == b[0]);
        }
        assert(opens_at(a + b, i) == opens_at(a, i));
        assert(doubled_at(a + b, i) == doubled_at(a, i));
        assert(advance(s, a + b, i, home) == advance(s, a, i, home));
        lemma_scan_within(a, b, home, i + width(s, a, i), advance(s, a, i, home));
    }
}

/// The scan of two texts, one after the other, is the scan of the first
/// carried on over the second, as long as the two do not meet in `${` or in
/// `>>`.
pub proof fn lemma_scan_of_both(a: Seq<char>, b: Seq<char>, home: Seq<char>, s: Scan)
    requires
        apart(a, b),
    ensures
        scan_from(a + b, home, 0, s) == scan_from(b, home, 0, scan_from(a, home, 0, s)),
{
    lemma_scan_within(a, b, home, 0, s);
    lemma_scan_beyond(a, b, home, 0, scan_from(a, home, 0, s));
}

proof fn lemma_scan_spaces(tail: Seq<char>, home: Seq<char>, j: int, s: Scan)
    requires
        0 <= j <= tail.len(),
        s.quote is None,
        s.depth == 0,
        forall|k: int| j <= k < tail.len() ==> is_whitespace(#[trigger] tail[k]),
    ensures
        scan_from(tail, home, j, s).finish() == s.finish(),
    decreases tail.len() - j,
{
    if j < tail.len() {
        assert(is_whitespace(tail[j]));
        lemma_scan_spaces(tail, home, j + 1, s.flush());
    }
}

/// Whitespace at the end of a line changes nothing, unless it stands inside
/// quotes or inside a nested command line that the line leaves open.
pub proof fn lemma_trailing_whitespace(input: Seq<char>, tail: Seq<char>, home: Seq<char>)
    requires
        forall|k: int| 0 <= k < tail.len() ==> is_whitespace(#[trigger] tail[k]),
        scan_from(input, home, 0, Scan::start()).quote is None,
        scan_from(input, home, 0, Scan::start()).depth == 0,
    ensures
        parsed(input + tail, home) == parsed(input, home),
{
    if tail.len() > 0 {
        assert(is_whitespace(tail[0]));
    }
    lemma_scan_of_both(input, tail, home, Scan::start());
    lemma_scan_spaces(tail, home, 0, scan_from(input, home, 0, Scan::start()));
}

/// Whether `w` is a word: not empty, and made of characters without a meaning
/// of their own.
pub open spec fn is_word(w: Seq<char>) -> bool {
    w.len() > 0 && forall|k: int| 0 <= k < w.len() ==> is_plain(#[trigger] w[k])
}

/// Whether `words` is a list of at least one word.
pub open spec fn are_words(words: Seq<Seq<char>>) -> bool {
    words.len() > 0 && forall|k: int| 0 <= k < words.len() ==> is_word(#[trigger] words[k])
}

/// The words with a space between two of them.
pub open spec fn spaced(words: Seq<Seq<char>>) -> Seq<char>
    decreases words.len(),
{
    if words.len() == 0 {
        Seq::empty()
    } else if words.len() == 1 {
        words[0]
    } else {
        spaced(words.drop_last()) + seq![' '] + words.last()
    }
}

/// The lists of words, each with a space between two of its words, and with
/// a pipe between two lists.
pub open spec fn piped(stages: Seq<Seq<Seq<char>>>) -> Seq<char>
    decreases stages.len(),
{
    if stages.len() == 0 {
        Seq::empty()
    } else if stages.len() == 1 {
        spaced(stages[0])
    } else {
        piped(stages.drop_last()) + seq![' ', '|', ' '] + spaced(stages.last())
    }
}

/// The stage that runs `words`, reads from a pipe where `reads` holds, and
/// writes into a pipe where `pipes` holds and to the terminal where not.
pub open spec fn plain_stage(words: Seq<Seq<char>>, reads: bool, pipes: bool) -> InstructionView {
    InstructionView {
        command: words,
        stdout_to: if pipes {
            StdoutTo::Pipe
        } else {
            StdoutTo::Stdout
        },
        ..InstructionView::fresh(reads)
    }
}

/// One stage for each list of words: each but the first reads from a pipe,
/// each but the last writes into one.
pub open spec fn plain_stages(stages: Seq<Seq<Seq<char>>>) -> Seq<InstructionView> {
    Seq::new(stages.len(), |k: int| plain_stage(stages[k], k > 0, k + 1 < stages.len()))
}

proof fn lemma_scan_one(c: char, home: Seq<char>, s: Scan)
    ensures
        scan_from(seq![c], home, 0, s) == advance(s, seq![c], 0, home),
{
    let t = advance(s, seq![c], 0, home);
    assert(width(s, seq![c], 0) == 1);
    assert(scan_from(seq![c], home, 1, t) == t);
}

proof fn lemma_scan_spaced(words: Seq<Seq<char>>, home: Seq<char>, s: Scan)
    requires
        are_words(words),
        s.quote is None,
        s.depth == 0,
        s.token.len() == 0,
        s.current.stdout_to !is File,
    ensures
        scan_from(spaced(words), home, 0, s) == (Scan {
            current: InstructionView {
                command: s.current.command + words.drop_last(),
                ..s.current
            },
            token: words.last(),
            ..s
        }),
        spaced(words).len() > 0,
        is_plain(spaced(words).last()),
    decreases words.len(),
{
    let last = words.last();
    assert(is_word(last));
    assert(is_plain(last[last.len() - 1]));
    if words.len() == 1 {
        lemma_scan_plain(last, home, 0, s);
        assert(s.token + last.subrange(0, last.len() as int) =~= last);
        assert(s.current.command + words.drop_last() =~= s.current.command);
    } else {
        let earlier = words.drop_last();
        assert(are_words(earlier)) by {
            assert forall|k: int| 0 <= k < earlier.len() implies is_word(#[trigger] earlier[k]) by {
                assert(earlier[k] == words[k]);
            }
        }
        let x = spaced(earlier);
        let space = seq![' '];
        let rest = space + last;
        assert(spaced(words) =~= x + rest);
        lemma_scan_spaced(earlier, home, s);
        let s1 = scan_from(x, home, 0, s);
        lemma_scan_of_both(x, rest, home, s);
        lemma_scan_of_both(space, last, home, s1);
        lemma_scan_one(' ', home, s1);
        let s2 = s1.flush();
        assert(is_word(earlier.last()));
        assert(s2.current.command =~= s.current.command + earlier);
        lemma_scan_plain(last, home, 0, s2);
        assert(s2.token + last.subrange(0, last.len() as int) =~= last);
        assert((x + rest).last() == last.last());
    }
}

proof fn lemma_scan_piped(stages: Seq<Seq<Seq<char>>>, home: Seq<char>)
    requires
        stages.len() > 0,
        forall|k: int| 0 <= k < stages.len() ==> are_words(#[trigger] stages[k]),
    ensures
        scan_from(piped(stages), home, 0, Scan::start()) == (Scan {
            done: Seq::new(
                (stages.len() - 1) as nat,
                |k: int| plain_stage(stages[k], k > 0, true),
            ),
            current: InstructionView {
                command: stages.last().drop_last(),
                ..InstructionView::fresh(stages.len() > 1)
            },
            token: stages.last().last(),
            ..Scan::start()
        }),
        piped(stages).len() > 0,
        is_plain(piped(stages).last()),
    decreases stages.len(),
{
    let last = stages.last();
    assert(are_words(last));
    if stages.len() == 1 {
        lemma_scan_spaced(last, home, Scan::start());
        assert(Scan::start().current.command + last.drop_last() =~= last.drop_last());
        assert(Seq::new(0, |k: int| plain_stage(stages[k], k > 0, true)) =~= Scan::start().done);
    } else {
        let earlier = stages.drop_last();
        assert forall|k: int| 0 <= k < earlier.len() implies are_words(#[trigger] earlier[k]) by {
            assert(earlier[k] == stages[k]);
        }
        let x = piped(earlier);
        let bar = seq![' ', '|', ' '];
        let y = spaced(last);
        assert(piped(stages) =~= x + (bar + y));
        lemma_scan_piped(earlier, home);
        let s1 = scan_from(x, home, 0, Scan::start());
        lemma_scan_of_both(x, bar + y, home, Scan::start());
        lemma_scan_of_both(bar, y, home, s1);
        let before = earlier.last();
        assert(are_words(before));
        assert(is_word(before.last()));
        // The space ends the last word, the pipe ends the stage, and the
        // space after it changes nothing.
        let s2 = s1.flush();
        assert(s2.current.command =~= before);
        let s3 = s2.flush().seal();
        let s4 = s3.flush();
        assert(bar =~= seq![' '] + seq!['|'] + seq![' ']);
        lemma_scan_of_both(seq![' '] + seq!['|'], seq![' '], home, s1);
        lemma_scan_of_both(seq![' '], seq!['|'], home, s1);
        lemma_scan_one(' ', home, s1);
        lemma_scan_one('|', home, s2);
        lemma_scan_one(' ', home, s3);
        assert(scan_from(bar, home, 0, s1) == s4);
        lemma_scan_spaced(last, home, s4);
        assert(s4.current.command + last.drop_last() =~= last.drop_last());
        let sealed = plain_stage(before, earlier.len() > 1, true);
        assert(s3.done == s1.done.push(sealed));
        assert(s1.done.push(sealed) =~= Seq::new(
            (stages.len() - 1) as nat,
            |k: int| plain_stage(stages[k], k > 0, true),
        )) by {
            assert forall|k: int| 0 <= k < earlier.len() - 1 implies earlier[k] == stages[k] by {}
            assert(before == stages[stages.len() - 2]);
        }
        assert((x + (bar + y)).last() == y.last());
    }
}

/// A line of lists of words, with a space between two words and a pipe
/// between two lists, has one stage for each list: its words are the stage's
/// arguments, each stage but the last writes into a pipe, and each but the
/// first reads from one.
pub proof fn lemma_piped_words(stages: Seq<Seq<Seq<char>>>, home: Seq<char>)
    requires
        stages.len() > 0,
        forall|k: int| 0 <= k < stages.len() ==> are_words(#[trigger] stages[k]),
    ensures
        parsed(piped(stages), home) == plain_stages(stages),
{
    lemma_scan_piped(stages, home);
    let s = scan_from(piped(stages), home, 0, Scan::start());
    let last = stages.last();
    assert(are_words(last));
    assert(is_word(last.last()));
    assert(last.drop_last().push(last.last()) =~= last);
    assert(s.finish().done =~= plain_stages(stages));
}

/// A line of words with a space between two of them has one stage, and the
/// words are its arguments.
pub proof fn lemma_spaced_words(words: Seq<Seq<char>>, home: Seq<char>)
    requires
        are_words(words),
    ensures
        parsed(spaced(words), home) == seq![plain_stage(words, false, false)],
{
    let stages = seq![words];
    assert(stages.last() == words);
    lemma_piped_words(stages, home);
    assert(plain_stages(stages) =~= seq![plain_stage(words, false, false)]);
}

/// The text that was found, if one was.
pub open spec fn found_text(text: Option<&str>) -> Option<Seq<char>> {
    match text {
        Some(t) => Some(t@),
        None => None,
    }
}

/// The text that `~` stands for: the home directory, or nothing where there
/// is none.
pub open spec fn home_text(home: Option<&str>) -> Seq<char> {
    match home {
        Some(h) => h@,
        None => Seq::empty(),
    }
}

/// The scan that the variables of `parse_line` stand for.
spec fn snapshot(
    done: Seq<Instruction>,
    current: Instruction,
    token: Seq<char>,
    quote: Option<char>,
    depth: usize,
    consulted: bool,
) -> Scan {
    Scan { done: views(done), current: current@, token, quote, depth: depth as nat, consulted }
}

/// Ends the token: the stage takes it up, and `token` is empty again.
fn flush_token(current: &mut Instruction, token: &mut String)
    ensures
        final(current)@ == taken_up(old(current)@, old(token)@),
        final(token)@ == Seq::<char>::empty(),
{
    let ghost before = current@;
    let mut taken = String::new();
    std::mem::swap(token, &mut taken);
    if taken.as_str().unicode_len() != 0 {
        match current.stdout_to {
            StdoutTo::File(_) => {
                current.filename = taken;
            },
            _ => {
                current.command.push(taken);
                assert(current@.command =~= before.command.push(taken@));
            },
        }
    } else {
        assert(taken@ =~= Seq::<char>::empty());
    }
}

/// Parses the line `input`, with `home` standing for what the home directory
/// was found to be.
///
/// The result is the sequence of stages `parsed` describes. Parsing fails in
/// one case only: the line asks for the home directory and there is none.
pub fn parse_line(input: &str, home: Option<&str>) -> (r: Result<Vec<Instruction>, ParseError>)
    ensures
        r is Err <==> home is None && needs_home(input@),
        r matches Ok(stages) ==> views(stages@) == parsed(input@, home_text(home)) && is_pipeline(
            views(stages@),
        ),
        r matches Err(e) ==> e == ParseError::HomeUnavailable,
{
    let text = chars_of(input);
    let home_chars: Vec<char> = match home {
        Some(h) => chars_of(h),
        None => Vec::new(),
    };
    let n = text.len();
    let mut done: Vec<Instruction> = Vec::new();
    let mut current = Instruction::new();
    let mut token = String::new();
    let mut quote: Option<char> = None;
    let mut depth: usize = 0;
    let mut consulted = false;
    let mut i: usize = 0;
    assert(views(done@) =~= Seq::empty());
    while i < n
        invariant
            n == text.len(),
            text@ == input@,
            home_chars@ == home_text(home),
            i <= n,
            depth <= i,
            scan_from(
                text@,
                home_chars@,
                i as int,
                snapshot(done@, current, token@, quote, depth, consulted),
            ) == scan_from(text@, home_chars@, 0, Scan::start()),
        decreases n - i,
    {
        let c = text[i];
        let opens = c == '$' && i + 1 < n && text[i + 1] == '{';
        let ghost before = snapshot(done@, current, token@, quote, depth, consulted);
        let ghost at = i as int;
        assert(opens == opens_at(text@, at));
        if depth > 0 {
            if opens {
                depth += 1;
                token.push('$');
                token.push('{');
                i += 2;
            } else if c == '}' {
                if depth == 1 {
                    let slot = current.command.len();
                    let ghost inner = token@;
                    current.command.push(token);
                    token = String::new();
                    current.subcommand_indices.push(slot);
                    assert(current@.command =~= before.current.command.push(inner));
                    assert(current@.subcommand_indices =~= before.current.subcommand_indices.push(
                        slot as nat,
                    ));
                } else {
                    token.push(c);
                }
                depth -= 1;
                i += 1;
            } else {
                token.push(c);
                i += 1;
            }
        } else if quote.is_some() {
            if quote == Some(c) {
                quote = None;
            } else {
                token.push(c);
            }
            i += 1;
        } else if c == '"' || c == '\'' {
            quote = Some(c);
            i += 1;
        } else if whitespace(c) {
            flush_token(&mut current, &mut token);
            i += 1;
        } else if c == '|' {
            flush_token(&mut current, &mut token);
            if current.command.len() != 0 {
                let piped = match current.stdout_to {
                    StdoutTo::File(_) => false,
                    _ => true,
                };
                if piped {
                    current.stdout_to = StdoutTo::Pipe;
                }
                let ghost sealed = current@;
                let mut next = Instruction::new();
                next.read_from_pipe = piped;
                done.push(current);
                current = next;
                assert(views(done@) =~= before.done.push(sealed));
            }
            i += 1;
        } else if c == '~' {
            consulted = true;
            push_chars(&mut token, &home_chars, 0, home_chars.len());
            assert(home_chars@.subrange(0, home_chars.len() as int) == home_chars@);
            i += 1;
        } else if c == '>' {
            let doubled = i + 1 < n && text[i + 1] == '>';
            match current.stdout_to {
                StdoutTo::File(_) => {},
                _ => {
                    current.stdout_to = StdoutTo::File(if doubled { APPEND } else { OVERWRITE });
                },
            }
            i += if doubled { 2 } else { 1 };
        } else if opens {
            depth = 1;
            i += 2;
        } else {
            token.push(c);
            i += 1;
        }
        assert(i == at + width(before, text@, at));
        assert(snapshot(done@, current, token@, quote, depth, consulted) == advance(
            before,
            text@,
            at,
            home_chars@,
        ));
    }
    flush_token(&mut current, &mut token);
    if current.command.len() != 0 {
        let ghost last = current@;
        let ghost earlier = views(done@);
        done.push(current);
        assert(views(done@) =~= earlier.push(last));
    }
    proof {
        lemma_parsed_is_pipeline(input@, home_text(home));
    }
    if consulted && home.is_none() {
        Err(ParseError::HomeUnavailable)
    } else {
        Ok(done)
    }
}

/// Parses the line `input`, with `~` standing for the current user's home
/// directory.
///
/// A line that does not ask for the home directory always parses, and to the
/// same stages whatever the home directory is. One that asks for it parses
/// exactly when the home directory can be found.
pub fn parse_input(input: &str) -> (r: Result<Vec<Instruction>, ParseError>)
    ensures
        r is Err ==> needs_home(input@),
        r matches Err(e) ==> e == ParseError::HomeUnavailable,
        r matches Ok(stages) ==> is_pipeline(views(stages@)) && exists|home: Seq<char>|
            views(stages@) == parsed(input@, home),
        r matches Ok(stages) ==> !needs_home(input@) ==> views(stages@) == parsed(
            input@,
            Seq::empty(),
        ),
{
    let found = lookup_home();
    let r = match &found {
        Some(home) => parse_line(input, Some(home.as_str())),
        None => parse_line(input, None),
    };
    proof {
        let home = match found {
            Some(h) => h@,
            None => Seq::empty(),
        };
        lemma_home_matters_only_where_needed(input@, home, Seq::empty());
    }
    r
}

} // verus!
