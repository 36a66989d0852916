//! Errors and warnings of test collection.

use crate::strings::{copy, nat_text, usize_string};
use vstd::prelude::*;

verus! {

/// An error met while collecting tests.
#[derive(Debug)]
pub enum CollectionError {
    ParseError(String),
    ImportError(String),
    IoError(String),
    SkipError(String),
    FileNotFound(String),
}

/// View of a [`CollectionError`].
pub ghost enum ErrorView {
    ParseError(Seq<char>),
    ImportError(Seq<char>),
    IoError(Seq<char>),
    SkipError(Seq<char>),
    FileNotFound(Seq<char>),
}

/// The result of a collection step.
pub type CollectionResult<T> = Result<T, CollectionError>;

/// How the collection of a node ended.
#[derive(Debug, Clone, Copy, PartialEq, Eq, Structural)]
pub enum CollectionOutcome {
    Passed,
    Failed,
    Skipped,
}

/// A warning given while collecting tests.
#[derive(Debug)]
pub struct CollectionWarning {
    pub file_path: String,
    pub line: usize,
    pub message: String,
}

/// View of a [`CollectionWarning`].
pub ghost struct WarningView {
    pub file_path: Seq<char>,
    pub line: nat,
    pub message: Seq<char>,
}

/// The words in which an error is shown.
pub open spec fn error_text(error: ErrorView) -> Seq<char> {
    match error {
        ErrorView::ParseError(message) => message,
        ErrorView::ImportError(message) => "ImportError: "@ + message,
        ErrorView::IoError(message) => "IO Error: "@ + message,
        ErrorView::SkipError(message) => "Skipped: "@ + message,
        ErrorView::FileNotFound(path) => "file or directory not found: "@ + path,
    }
}

fn prefixed(prefix: &str, text: &str) -> (r: String)
    ensures
        r@ == prefix@ + text@,
{
    let mut r = copy(prefix);
    r.append(text);
    r
}

impl CollectionError {
    pub open spec fn view(&self) -> ErrorView {
        match self {
            CollectionError::ParseError(message) => ErrorView::ParseError(message@),
            CollectionError::ImportError(message) => ErrorView::ImportError(message@),
            CollectionError::IoError(message) => ErrorView::IoError(message@),
            CollectionError::SkipError(message) => ErrorView::SkipError(message@),
            CollectionError::FileNotFound(path) => ErrorView::FileNotFound(path@),
        }
    }

    /// An error with the same contents.
    pub fn copy(&self) -> (r: CollectionError)
        ensures
            r@ == self@,
    {
        match self {
            CollectionError::ParseError(message) => CollectionError::ParseError(
                copy(message.as_str()),
            ),
            CollectionError::ImportError(message) => CollectionError::ImportError(
                copy(message.as_str()),
            ),
            CollectionError::IoError(message) => CollectionError::IoError(copy(message.as_str())),
            CollectionError::SkipError(message) => CollectionError::SkipError(
                copy(message.as_str()),
            ),
            CollectionError::FileNotFound(path) => CollectionError::FileNotFound(
                copy(path.as_str()),
            ),
        }
    }

    /// The words in which the error is shown.
    pub fn describe(&self) -> (r: String)
        ensures
            r@ == error_text(self@),
    {
        match self {
            CollectionError::ParseError(message) => copy(message.as_str()),
            CollectionError::ImportError(message) => prefixed("ImportError: ", message.as_str()),
            CollectionError::IoError(message) => prefixed("IO Error: ", message.as_str()),
            CollectionError::SkipError(message) => prefixed("Skipped: ", message.as_str()),
            CollectionError::FileNotFound(path) => prefixed(
                "file or directory not found: ",
                path.as_str(),
            ),
        }
    }
}

/// A warning in words: the place is named where there is one.
pub open spec fn warning_line(warning: WarningView) -> Seq<char> {
    if warning.line == 0 {
        warning.message
    } else {
        warning.file_path + seq![':'] + nat_text(warning.line) + ": "@ + warning.message
    }
}

impl CollectionWarning {
    pub open spec fn view(&self) -> WarningView {
        WarningView {
            file_path: self.file_path@,
            line: self.line as nat,
            message: self.message@,
        }
    }

    /// A warning with the same contents.
    pub fn copy(&self) -> (r: CollectionWarning)
        ensures
            r@ == self@,
    {
        CollectionWarning {
            file_path: copy(self.file_path.as_str()),
            line: self.line,
            message: copy(self.message.as_str()),
        }
    }

    /// The warning in words.
    pub fn describe(&self) -> (r: String)
        ensures
            r@ == warning_line(self@),
    {
        if self.line == 0 {
            copy(self.message.as_str())
        } else {
            let mut r = copy(self.file_path.as_str());
            r.push(':');
            r.append(usize_string(self.line).as_str());
            r.append(": ");
            r.append(self.message.as_str());
            assert(r@ =~= warning_line(self@));
            r
        }
    }
}

/// The views of a list of warnings.
pub open spec fn warning_views(list: Seq<CollectionWarning>) -> Seq<WarningView> {
    Seq::new(list.len(), |i: int| list[i].view())
}

} // verus!
