//! The errors that the library reports.

use vstd::prelude::*;
use vstd::string::*;

verus! {

/// Why a document could not be read or a generation run could not go on.
#[derive(Debug)]
pub enum Error {
    /// The document splits into an odd number of parts, so that a directive
    /// is left without a body.
    UnpairedPart,
    /// A field holds a text that does not compile as a regular expression;
    /// the text is carried along.
    InvalidPattern(String),
    /// An injection names more than one placement; its target is carried along.
    ConflictingPlacements(String),
    /// An injection's target does not exist; the target is carried along.
    TargetMissing(String),
    /// The storage failed; the failure's description is carried along.
    Storage(String),
    /// A run was handed an answer to a question that it had not asked.
    OutOfTurn,
}

/// An error, with each text it carries given by its characters.
pub enum ErrorView {
    UnpairedPart,
    InvalidPattern(Seq<char>),
    ConflictingPlacements(Seq<char>),
    TargetMissing(Seq<char>),
    Storage(Seq<char>),
    OutOfTurn,
}

impl View for Error {
    type V = ErrorView;

    open spec fn view(&self) -> ErrorView {
        match *self {
            Error::UnpairedPart => ErrorView::UnpairedPart,
            Error::InvalidPattern(t) => ErrorView::InvalidPattern(t@),
            Error::ConflictingPlacements(t) => ErrorView::ConflictingPlacements(t@),
            Error::TargetMissing(t) => ErrorView::TargetMissing(t@),
            Error::Storage(t) => ErrorView::Storage(t@),
            Error::OutOfTurn => ErrorView::OutOfTurn,
        }
    }
}

/// The sentence that tells of an error.
pub open spec fn message_of(e: ErrorView) -> Seq<char> {
    match e {
        ErrorView::UnpairedPart => "cannot split document to frontmatter and body"@,
        ErrorView::InvalidPattern(text) => "invalid pattern: "@ + text,
        ErrorView::ConflictingPlacements(into) => "more than one placement for injection into "@
            + into,
        ErrorView::TargetMissing(into) => "cannot inject into "@ + into
            + ": file does not exist"@,
        ErrorView::Storage(text) => text,
        ErrorView::OutOfTurn => "answer out of turn"@,
    }
}

impl Error {
    /// The sentence that tells of the error.
    pub fn message(&self) -> (s: String)
        ensures
            s@ == message_of(self@),
    {
        match self {
            Error::UnpairedPart => String::from_str("cannot split document to frontmatter and body"),
            Error::InvalidPattern(text) => {
                let mut s = String::from_str("invalid pattern: ");
                s.append(text.as_str());
                s
            },
            Error::ConflictingPlacements(into) => {
                let mut s = String::from_str("more than one placement for injection into ");
                s.append(into.as_str());
                s
            },
            Error::TargetMissing(into) => {
                let mut s = String::from_str("cannot inject into ");
                s.append(into.as_str());
                s.append(": file does not exist");
                s
            },
            Error::Storage(text) => text.clone(),
            Error::OutOfTurn => String::from_str("answer out of turn"),
        }
    }
}

} // verus!
