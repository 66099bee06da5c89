//! The errors that end a resolution.

use vstd::prelude::*;

verus! {

/// Why a resolution stopped. Every error is fatal: nothing is resolved past
/// the first one, and no partial backup set is handed out.
#[derive(Debug, PartialEq, Eq)]
pub enum FatalError {
    /// An explicit entry, the manifest file or a path listed in the manifest
    /// does not exist. Holds the offending path.
    PathNotFound(String),
    /// Reading failed while a directory was enumerated or the manifest was
    /// scanned. Holds the details that the reader gave.
    IoError(String),
}

/// A `FatalError` with its texts as sequences of characters.
pub enum FatalErrorView {
    PathNotFound(Seq<char>),
    IoError(Seq<char>),
}

impl View for FatalError {
    type V = FatalErrorView;

    open spec fn view(&self) -> FatalErrorView {
        match self {
            FatalError::PathNotFound(path) => FatalErrorView::PathNotFound(path@),
            FatalError::IoError(details) => FatalErrorView::IoError(details@),
        }
    }
}

/// What a resolution ends with: the backup set, or the error that stopped it.
pub type Outcome = Result<Seq<Seq<char>>, FatalErrorView>;

/// The view of an executable outcome.
pub open spec fn outcome_view(r: Result<Vec<String>, FatalError>) -> Outcome {
    match r {
        Ok(paths) => Ok(paths.deep_view()),
        Err(e) => Err(e@),
    }
}

} // verus!
