//! What can go wrong while a line runs.

use vstd::prelude::*;
use crate::chars::push_text;
use crate::text_processing::ParseError;

verus! {

/// Why a line stopped before its end.
#[derive(Debug, Clone, PartialEq, Eq)]
pub enum ExecError {
    /// The line could not be parsed.
    Parse(ParseError),
    /// `cd` was given no directory, and the home directory cannot be found.
    HomeUnavailable,
    /// `pushd` was given no directory.
    MissingDirectory,
    /// `popd` found the directory stack empty.
    EmptyDirectoryStack,
    /// The named program's output was sent to a file, and no file was named.
    MissingOutputFile(String),
    /// The named program could not be started.
    CommandNotFound(String),
    /// The named path was to receive output, and is a directory.
    IsDirectory(String),
    /// The operating system refused something; the text is its message.
    Io(String),
    /// The caller reported something that the run was not waiting for.
    Unexpected,
}

/// An `ExecError` as a mathematical value.
pub enum ExecErrorView {
    Parse(ParseError),
    HomeUnavailable,
    MissingDirectory,
    EmptyDirectoryStack,
    MissingOutputFile(Seq<char>),
    CommandNotFound(Seq<char>),
    IsDirectory(Seq<char>),
    Io(Seq<char>),
    Unexpected,
}

impl View for ExecError {
    type V = ExecErrorView;

    open spec fn view(&self) -> ExecErrorView {
        match *self {
            ExecError::Parse(e) => ExecErrorView::Parse(e),
            ExecError::HomeUnavailable => ExecErrorView::HomeUnavailable,
            ExecError::MissingDirectory => ExecErrorView::MissingDirectory,
            ExecError::EmptyDirectoryStack => ExecErrorView::EmptyDirectoryStack,
            ExecError::MissingOutputFile(program) => ExecErrorView::MissingOutputFile(program@),
            ExecError::CommandNotFound(program) => ExecErrorView::CommandNotFound(program@),
            ExecError::IsDirectory(path) => ExecErrorView::IsDirectory(path@),
            ExecError::Io(message) => ExecErrorView::Io(message@),
            ExecError::Unexpected => ExecErrorView::Unexpected,
        }
    }
}

/// The message for a home directory that cannot be found.
pub open spec fn home_message() -> Seq<char> {
    "Failed to retrieve home directory."@
}

/// The message for an error.
pub open spec fn message_of(e: ExecErrorView) -> Seq<char> {
    match e {
        ExecErrorView::Parse(ParseError::HomeUnavailable) => home_message(),
        ExecErrorView::HomeUnavailable => home_message(),
        ExecErrorView::MissingDirectory => "please specify a directory"@,
        ExecErrorView::EmptyDirectoryStack => "directory stack empty"@,
        ExecErrorView::MissingOutputFile(program) => "please specify target file for output of '"@
            + program + "'"@,
        ExecErrorView::CommandNotFound(program) => "Command '"@ + program + "' not found."@,
        ExecErrorView::IsDirectory(path) => "'"@ + path + "' is a directory."@,
        ExecErrorView::Io(message) => message,
        ExecErrorView::Unexpected => "unexpected report"@,
    }
}

impl ParseError {
    /// The message for this error.
    pub fn message(&self) -> (r: String)
        ensures
            r@ == home_message(),
    {
        "Failed to retrieve home directory.".to_owned()
    }
}

impl ExecError {
    /// The message for this error.
    pub fn message(&self) -> (r: String)
        ensures
            r@ == message_of(self@),
    {
        match self {
            ExecError::Parse(e) => e.message(),
            ExecError::HomeUnavailable => "Failed to retrieve home directory.".to_owned(),
            ExecError::Unexpected => "unexpected report".to_owned(),
            ExecError::MissingDirectory => "please specify a directory".to_owned(),
            ExecError::EmptyDirectoryStack => "directory stack empty".to_owned(),
            ExecError::MissingOutputFile(program) => {
                let mut r = "please specify target file for output of '".to_owned();
                push_text(&mut r, program.as_str());
                push_text(&mut r, "'");
                r
            },
            ExecError::CommandNotFound(program) => {
                let mut r = "Command '".to_owned();
                push_text(&mut r, program.as_str());
                push_text(&mut r, "' not found.");
                r
            },
            ExecError::IsDirectory(path) => {
                let mut r = "'".to_owned();
                push_text(&mut r, path.as_str());
                push_text(&mut r, "' is a directory.");
                r
            },
            ExecError::Io(message) => message.clone(),
        }
    }
}

} // verus!
