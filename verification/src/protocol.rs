//! What a resolution asks of the file system, and what it is told.

use vstd::prelude::*;

verus! {

/// One question to the file system, or the news that none is left. The
/// driver answers each with exactly one look at the disk.
#[derive(Debug, PartialEq, Eq)]
pub enum Request {
    /// Is this path a regular file? Answered by `Reply::Flag`.
    IsFile(String),
    /// Is this path a directory? Answered by `Reply::Flag`.
    IsDir(String),
    /// Which regular files lie beneath this directory, at any depth?
    /// Answered by `Reply::Files`, or by `Reply::Failed`.
    ListFiles(String),
    /// Open the manifest at this path for reading. Answered by
    /// `Reply::Opened`, or by `Reply::Failed`.
    OpenManifest(String),
    /// Read the next line of the opened manifest. Answered by `Reply::Line`,
    /// by `Reply::EndOfFile`, or by `Reply::Failed`.
    ReadLine,
    /// Does anything exist at this path? Answered by `Reply::Flag`.
    Exists(String),
    /// The resolution is over: its outcome can be taken.
    Done,
}

/// The answer to a `Request`.
#[derive(Debug, PartialEq, Eq)]
pub enum Reply {
    /// Yes or no.
    Flag(bool),
    /// The regular files found beneath a directory, in the order of the walk.
    Files(Vec<String>),
    /// The manifest is open.
    Opened,
    /// One line of the manifest, without its line ending.
    Line(String),
    /// The manifest has no further line.
    EndOfFile,
    /// Reading failed, with the reader's details.
    Failed(String),
}

/// A `Request` with its paths as sequences of characters.
pub enum RequestView {
    IsFile(Seq<char>),
    IsDir(Seq<char>),
    ListFiles(Seq<char>),
    OpenManifest(Seq<char>),
    ReadLine,
    Exists(Seq<char>),
    Done,
}

/// A `Reply` with its texts as sequences of characters.
pub enum ReplyView {
    Flag(bool),
    Files(Seq<Seq<char>>),
    Opened,
    Line(Seq<char>),
    EndOfFile,
    Failed(Seq<char>),
}

impl View for Request {
    type V = RequestView;

    open spec fn view(&self) -> RequestView {
        match self {
            Request::IsFile(path) => RequestView::IsFile(path@),
            Request::IsDir(path) => RequestView::IsDir(path@),
            Request::ListFiles(path) => RequestView::ListFiles(path@),
            Request::OpenManifest(path) => RequestView::OpenManifest(path@),
            Request::ReadLine => RequestView::ReadLine,
            Request::Exists(path) => RequestView::Exists(path@),
            Request::Done => RequestView::Done,
        }
    }
}

impl View for Reply {
    type V = ReplyView;

    open spec fn view(&self) -> ReplyView {
        match self {
            Reply::Flag(yes) => ReplyView::Flag(*yes),
            Reply::Files(files) => ReplyView::Files(files.deep_view()),
            Reply::Opened => ReplyView::Opened,
            Reply::Line(text) => ReplyView::Line(text@),
            Reply::EndOfFile => ReplyView::EndOfFile,
            Reply::Failed(details) => ReplyView::Failed(details@),
        }
    }
}

} // verus!
