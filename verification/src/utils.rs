//! The home directory, the configuration directory, the history log, and the
//! files that receive output.

use vstd::prelude::*;
use crate::chars::{
    decimal, ends_lines, is_line, lemma_lines_of_both, lemma_lines_of_one, lines, push_decimal,
    push_text, split_lines, texts,
};
use crate::error::{home_message, ExecError, ExecErrorView};
use crate::instruction::APPEND;

verus! {

/// Asks `home::home_dir` for the current user's home directory, and hands its
/// answer on as text; `None` where it found none. The answer depends on the
/// environment, so nothing is claimed of it.
#[verifier::external_body]
pub(crate) fn lookup_home() -> (r: Option<String>) {
    match home::home_dir() {
        Some(path) => Some(format!("{}", path.display())),
        None => None,
    }
}

/// Says what the current user's home directory is, given what the lookup
/// found: the directory, or the message that none could be found.
pub fn home_from(found: Option<String>) -> (r: Result<String, String>)
    ensures
        found matches Some(path) ==> r == Ok::<String, String>(path),
        found is None ==> r is Err && r->Err_0@ == home_message(),
{
    match found {
        Some(path) => Ok(path),
        None => Err("Failed to retrieve home directory.".to_owned()),
    }
}

/// The current user's home directory, or the message that none could be
/// found.
pub fn home_dir() -> (r: Result<String, String>)
    ensures
        r matches Err(message) ==> message@ == home_message(),
{
    home_from(lookup_home())
}

/// The path `base` with the relative name `name` below it.
pub open spec fn joined(base: Seq<char>, name: Seq<char>) -> Seq<char> {
    if base.len() == 0 || base.last() == '/' {
        base + name
    } else {
        base + seq!['/'] + name
    }
}

/// The configuration directory of a user whose home directory is `home`.
pub open spec fn config_path(home: Seq<char>) -> Seq<char> {
    joined(joined(home, ".config"@), "myshell"@)
}

/// The history file of a user whose home directory is `home`.
pub open spec fn history_path(home: Seq<char>) -> Seq<char> {
    joined(config_path(home), "history"@)
}

fn join(base: &mut String, name: &str)
    ensures
        final(base)@ == joined(old(base)@, name@),
{
    let v = crate::chars::chars_of(base.as_str());
    if v.len() != 0 && v[v.len() - 1] != '/' {
        base.push('/');
    }
    push_text(base, name);
}

/// The configuration directory of a user whose home directory is `home`.
pub fn config_dir(home: &str) -> (r: String)
    ensures
        r@ == config_path(home@),
{
    let mut r = home.to_owned();
    join(&mut r, ".config");
    join(&mut r, "myshell");
    r
}

/// The history file of a user whose home directory is `home`.
pub fn history_file(home: &str) -> (r: String)
    ensures
        r@ == history_path(home@),
{
    let mut r = config_dir(home);
    join(&mut r, "history");
    r
}

/// How a file that receives output is opened.
#[derive(Debug, Clone, Copy, PartialEq, Eq, Structural)]
pub struct FileOptions {
    /// Create the file if it does not exist.
    pub create: bool,
    /// Keep what the file holds, and write after it.
    pub append: bool,
    /// Drop what the file holds.
    pub truncate: bool,
    /// Open the file for writing.
    pub write: bool,
}

/// How a file is opened in write mode `mode`: both modes create a missing
/// file; appending keeps what is there, any other mode replaces it.
pub open spec fn options_for(mode: char) -> FileOptions {
    if mode == APPEND {
        FileOptions { create: true, append: true, truncate: false, write: false }
    } else {
        FileOptions { create: true, append: false, truncate: true, write: true }
    }
}

/// Says how to open `filename` to receive output in write mode `mode`, given
/// whether `filename` is a directory. A directory cannot receive output.
pub fn open_file(filename: &str, mode: char, is_directory: bool) -> (r: Result<
    FileOptions,
    ExecError,
>)
    ensures
        is_directory ==> (r matches Err(e) && e@ == ExecErrorView::IsDirectory(filename@)),
        !is_directory ==> (r matches Ok(options) && options == options_for(mode)),
{
    if is_directory {
        return Err(ExecError::IsDirectory(filename.to_owned()));
    }
    if mode == APPEND {
        Ok(FileOptions { create: true, append: true, truncate: false, write: false })
    } else {
        Ok(FileOptions { create: true, append: false, truncate: true, write: true })
    }
}

/// The history log `log` after the line `input` was entered: an empty line
/// leaves no trace, any other is added at the end, followed by a line feed.
pub open spec fn recorded(log: Seq<char>, input: Seq<char>) -> Seq<char> {
    if input.len() == 0 {
        log
    } else {
        log + input + seq!['\n']
    }
}

/// Adds the line `input` to the history log `log`.
pub fn write_history(log: &mut String, input: &str)
    ensures
        final(log)@ == recorded(old(log)@, input@),
{
    if input.unicode_len() == 0 {
        return ;
    }
    push_text(log, input);
    log.push('\n');
}

/// Entry number `k` of a history listing: the number, a space, the line.
pub open spec fn numbered(entries: Seq<Seq<char>>, k: int) -> Seq<char> {
    decimal(k as nat) + seq![' '] + entries[k]
}

/// The listing of the first `n` of `entries`: one numbered entry per line,
/// counted from 0, with a line feed between two of them.
pub open spec fn listing_upto(entries: Seq<Seq<char>>, n: nat) -> Seq<char>
    decreases n,
{
    if n == 0 {
        Seq::empty()
    } else if n == 1 {
        numbered(entries, 0)
    } else {
        listing_upto(entries, (n - 1) as nat) + seq!['\n'] + numbered(entries, n - 1)
    }
}

/// The listing of `entries`.
pub open spec fn listing(entries: Seq<Seq<char>>) -> Seq<char> {
    listing_upto(entries, entries.len())
}

/// The listing of the history log `log`: its lines in the order in which
/// they were entered, each with its number.
pub fn history_listing(log: &str) -> (r: String)
    ensures
        r@ == listing(lines(log@)),
{
    let entries = split_lines(log);
    let ghost listed = texts(entries@);
    let mut r = String::new();
    let mut k: usize = 0;
    while k < entries.len()
        invariant
            k <= entries.len(),
            listed == texts(entries@),
            r@ == listing_upto(listed, k as nat),
        decreases entries.len() - k,
    {
        if k != 0 {
            r.push('\n');
        }
        let ghost head = r@;
        push_decimal(&mut r, k as u64);
        r.push(' ');
        push_text(&mut r, entries[k].as_str());
        assert(entries[k as int]@ == listed[k as int]);
        assert(r@ =~= head + numbered(listed, k as int));
        k += 1;
    }
    r
}

/// The history log after the lines `entries` were entered, one after the
/// other, starting from an empty log.
pub open spec fn log_of(entries: Seq<Seq<char>>) -> Seq<char>
    decreases entries.len(),
{
    if entries.len() == 0 {
        Seq::empty()
    } else {
        recorded(log_of(entries.drop_last()), entries.last())
    }
}

/// A line that is entered into the history log becomes its last line, and
/// the lines before it stay as they were.
pub proof fn lemma_recorded_line(log: Seq<char>, input: Seq<char>)
    requires
        ends_lines(log),
        is_line(input),
    ensures
        lines(recorded(log, input)) == lines(log).push(input),
        ends_lines(recorded(log, input)),
{
    let tail = input + seq!['\n'];
    lemma_lines_of_both(log, tail, 0);
    lemma_lines_of_one(input);
    assert(log + input + seq!['\n'] =~= log + tail);
    assert(lines(log) + seq![input] =~= lines(log).push(input));
}

/// The history log gives back the lines that were entered, in the order in
/// which they were entered; so the listing numbers them in that order, from 0.
pub proof fn lemma_history_keeps_order(entries: Seq<Seq<char>>)
    requires
        forall|k: int| 0 <= k < entries.len() ==> is_line(#[trigger] entries[k]),
    ensures
        lines(log_of(entries)) == entries,
        ends_lines(log_of(entries)),
        forall|k: int|
            0 <= k < entries.len() ==> #[trigger] numbered(lines(log_of(entries)), k) == decimal(
                k as nat,
            ) + seq![' '] + entries[k],
    decreases entries.len(),
{
    if entries.len() > 0 {
        let earlier = entries.drop_last();
        lemma_history_keeps_order(earlier);
        lemma_recorded_line(log_of(earlier), entries.last());
        assert(earlier.push(entries.last()) =~= entries);
    }
}

/// The history log as it was found: empty where none was written yet.
pub fn read_history(stored: Option<String>) -> (r: String)
    ensures
        stored matches Some(log) ==> r@ == log@,
        stored is None ==> r@ == Seq::<char>::empty(),
{
    match stored {
        Some(log) => log,
        None => String::new(),
    }
}

/// What a directory holds under one name.
#[derive(Debug, Clone, PartialEq, Eq)]
pub struct BinEntry {
    /// The name of the file.
    pub name: String,
    /// The permission bits of the file, where they could be read.
    pub mode: Option<u32>,
}

/// Whether a file with the permission bits `mode` can be run by its owner,
/// by its group or by anyone else.
pub open spec fn is_executable(mode: u32) -> bool {
    mode & 0o111 != 0
}

/// Whether the entry is a file that can be run.
pub open spec fn is_program(entry: BinEntry) -> bool {
    entry.mode matches Some(mode) && is_executable(mode)
}

/// The names of the entries that can be run, in the order of the entries.
pub open spec fn programs(entries: Seq<BinEntry>) -> Seq<Seq<char>>
    decreases entries.len(),
{
    if entries.len() == 0 {
        Seq::empty()
    } else if is_program(entries.last()) {
        programs(entries.drop_last()).push(entries.last().name@)
    } else {
        programs(entries.drop_last())
    }
}

/// The names of the programs among the entries of a directory: of those
/// whose permission bits could be read and allow running them.
pub fn bin_dir_contents(entries: &Vec<BinEntry>) -> (r: Vec<String>)
    ensures
        texts(r@) == programs(entries@),
{
    let mut r: Vec<String> = Vec::new();
    let mut k: usize = 0;
    assert(entries@.take(0) =~= Seq::empty());
    assert(texts(r@) =~= Seq::empty());
    while k < entries.len()
        invariant
            k <= entries.len(),
            texts(r@) == programs(entries@.take(k as int)),
        decreases entries.len() - k,
    {
        let ghost before = texts(r@);
        assert(entries@.take(k + 1).drop_last() =~= entries@.take(k as int));
        assert(entries@.take(k + 1).last() == entries@[k as int]);
        let runs = match entries[k].mode {
            Some(mode) => mode & 0o111 != 0,
            None => false,
        };
        if runs {
            r.push(entries[k].name.clone());
            assert(texts(r@) =~= before.push(entries@[k as int].name@));
        }
        k += 1;
    }
    assert(entries@.take(entries.len() as int) =~= entries@);
    r
}

} // verus!
