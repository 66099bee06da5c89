//! The resolver: turns explicit entries and a manifest into the backup set,
//! one question to the file system at a time.
//!
//! The resolver never touches the disk. It says what it needs to know
//! (`Resolver::pending`), is told (`Resolver::step`), and decides what
//! follows. A driver outside this library performs the looks at the disk.

use crate::error::{outcome_view, FatalError, FatalErrorView, Outcome};
use crate::exclude::{filter_paths, retained};
use crate::protocol::{Reply, ReplyView, Request, RequestView};
use vstd::prelude::*;

verus! {

/// Where a resolution stands.
pub enum StageView {
    /// Asking whether the entry at the cursor is a regular file.
    EntryIsFile,
    /// The entry at the cursor is no regular file: asking whether it is a
    /// directory.
    EntryIsDir,
    /// The entry at the cursor is a directory: asking for the files beneath.
    EntryFiles,
    /// All entries are resolved: asking whether the manifest is a regular
    /// file.
    ManifestIsFile,
    /// Asking to open the manifest.
    ManifestOpen,
    /// Asking for the next line of the manifest.
    NextLine,
    /// Asking whether the path that the last line named exists.
    LineExists(Seq<char>),
    /// Over, with this outcome.
    Finished(Outcome),
}

/// The state of a resolution, as mathematical values.
pub struct ResolverView {
    /// The explicit entries, in the order given.
    pub entries: Seq<Seq<char>>,
    /// The path of the manifest, if there is one.
    pub manifest: Option<Seq<char>>,
    /// The exclusion patterns.
    pub patterns: Seq<Seq<char>>,
    /// How many explicit entries are resolved.
    pub cursor: int,
    /// The paths resolved so far, in order.
    pub found: Seq<Seq<char>>,
    /// What is being asked.
    pub stage: StageView,
}

impl ResolverView {
    /// The state is one that a resolution can be in: while an entry is
    /// looked at the cursor points at it, and the manifest is only looked at
    /// where there is one.
    pub open spec fn well_formed(self) -> bool {
        match self.stage {
            StageView::EntryIsFile | StageView::EntryIsDir | StageView::EntryFiles => 0
                <= self.cursor < self.entries.len(),
            StageView::ManifestIsFile
            | StageView::ManifestOpen
            | StageView::NextLine
            | StageView::LineExists(_) => self.manifest is Some,
            StageView::Finished(_) => true,
        }
    }

    /// The state once `found` holds what the first `cursor` entries gave: the
    /// next entry is looked at; after the last one the manifest, if any;
    /// without a manifest the resolution ends with what was found, filtered.
    pub open spec fn turn(self, cursor: int, found: Seq<Seq<char>>) -> ResolverView {
        let stage = if 0 <= cursor < self.entries.len() {
            StageView::EntryIsFile
        } else if self.manifest is Some {
            StageView::ManifestIsFile
        } else {
            StageView::Finished(Ok(retained(found, self.patterns)))
        };
        ResolverView { cursor, found, stage, ..self }
    }

    /// The same state at another stage.
    pub open spec fn at(self, stage: StageView) -> ResolverView {
        ResolverView { stage, ..self }
    }

    /// The state in which the resolution has failed.
    pub open spec fn failed(self, error: FatalErrorView) -> ResolverView {
        self.at(StageView::Finished(Err(error)))
    }

    /// What the resolution asks in this state.
    pub open spec fn pending(self) -> RequestView {
        match self.stage {
            StageView::EntryIsFile => RequestView::IsFile(self.entries[self.cursor]),
            StageView::EntryIsDir => RequestView::IsDir(self.entries[self.cursor]),
            StageView::EntryFiles => RequestView::ListFiles(self.entries[self.cursor]),
            StageView::ManifestIsFile => RequestView::IsFile(self.manifest->0),
            StageView::ManifestOpen => RequestView::OpenManifest(self.manifest->0),
            StageView::NextLine => RequestView::ReadLine,
            StageView::LineExists(path) => RequestView::Exists(path),
            StageView::Finished(_) => RequestView::Done,
        }
    }

    /// The state that follows when `reply` answers the pending request.
    ///
    /// An explicit entry that is a regular file is taken as it is; a
    /// directory gives the files beneath it; anything else is not found. A
    /// manifest must be a regular file; each of its lines that is not empty
    /// names a path, which must exist and is taken as it is, directory or
    /// not. The first failure ends the resolution. When nothing is left to
    /// ask, the paths found are filtered and the resolution ends with them.
    /// A reply that does not answer the pending request changes nothing.
    pub open spec fn advance(self, reply: ReplyView) -> ResolverView {
        match (self.stage, reply) {
            (StageView::EntryIsFile, ReplyView::Flag(yes)) => if yes {
                self.turn(self.cursor + 1, self.found.push(self.entries[self.cursor]))
            } else {
                self.at(StageView::EntryIsDir)
            },
            (StageView::EntryIsDir, ReplyView::Flag(yes)) => if yes {
                self.at(StageView::EntryFiles)
            } else {
                self.failed(FatalErrorView::PathNotFound(self.entries[self.cursor]))
            },
            (StageView::EntryFiles, ReplyView::Files(files)) => self.turn(
                self.cursor + 1,
                self.found + files,
            ),
            (StageView::EntryFiles, ReplyView::Failed(details)) => self.failed(
                FatalErrorView::IoError(details),
            ),
            (StageView::ManifestIsFile, ReplyView::Flag(yes)) => if yes {
                self.at(StageView::ManifestOpen)
            } else {
                self.failed(FatalErrorView::PathNotFound(self.manifest->0))
            },
            (StageView::ManifestOpen, ReplyView::Opened) => self.at(StageView::NextLine),
            (StageView::ManifestOpen, ReplyView::Failed(details)) => self.failed(
                FatalErrorView::IoError(details),
            ),
            (StageView::NextLine, ReplyView::Line(text)) => if text.len() == 0 {
                self
            } else {
                self.at(StageView::LineExists(text))
            },
            (StageView::NextLine, ReplyView::EndOfFile) => self.at(
                StageView::Finished(Ok(retained(self.found, self.patterns))),
            ),
            (StageView::NextLine, ReplyView::Failed(details)) => self.failed(
                FatalErrorView::IoError(details),
            ),
            (StageView::LineExists(path), ReplyView::Flag(yes)) => if yes {
                ResolverView { found: self.found.push(path), stage: StageView::NextLine, ..self }
            } else {
                self.failed(FatalErrorView::PathNotFound(path))
            },
            _ => self,
        }
    }
}

/// Where a resolution stands, with the texts it holds.
enum Stage {
    EntryIsFile,
    EntryIsDir,
    EntryFiles,
    ManifestIsFile,
    ManifestOpen,
    NextLine,
    LineExists(String),
    Finished(Result<Vec<String>, FatalError>),
}

impl View for Stage {
    type V = StageView;

    closed spec fn view(&self) -> StageView {
        match self {
            Stage::EntryIsFile => StageView::EntryIsFile,
            Stage::EntryIsDir => StageView::EntryIsDir,
            Stage::EntryFiles => StageView::EntryFiles,
            Stage::ManifestIsFile => StageView::ManifestIsFile,
            Stage::ManifestOpen => StageView::ManifestOpen,
            Stage::NextLine => StageView::NextLine,
            Stage::LineExists(path) => StageView::LineExists(path@),
            Stage::Finished(outcome) => StageView::Finished(outcome_view(*outcome)),
        }
    }
}

/// A resolution under way.
pub struct Resolver {
    entries: Vec<String>,
    manifest: Option<String>,
    patterns: Vec<String>,
    cursor: usize,
    found: Vec<String>,
    stage: Stage,
}

impl View for Resolver {
    type V = ResolverView;

    closed spec fn view(&self) -> ResolverView {
        ResolverView {
            entries: self.entries.deep_view(),
            manifest: self.manifest.deep_view(),
            patterns: self.patterns.deep_view(),
            cursor: self.cursor as int,
            found: self.found.deep_view(),
            stage: self.stage@,
        }
    }
}

impl Resolver {
    #[verifier::type_invariant]
    spec fn inv(&self) -> bool {
        self@.well_formed()
    }

    /// The resolver once `found` holds what the first `cursor` entries gave.
    fn turn(
        entries: Vec<String>,
        manifest: Option<String>,
        patterns: Vec<String>,
        cursor: usize,
        found: Vec<String>,
    ) -> (next: Resolver)
        requires
            cursor <= entries.len(),
        ensures
            next@ == begin(
                entries.deep_view(),
                manifest.deep_view(),
                patterns.deep_view(),
            ).turn(cursor as int, found.deep_view()),
    {
        let stage = if cursor < entries.len() {
            Stage::EntryIsFile
        } else if manifest.is_some() {
            Stage::ManifestIsFile
        } else {
            Stage::Finished(Ok(filter_paths(&found, &patterns)))
        };
        Resolver { entries, manifest, patterns, cursor, found, stage }
    }

    /// Starts the resolution of `entries`, then of the paths that the
    /// manifest lists, with `patterns` to exclude.
    pub fn start(entries: Vec<String>, manifest: Option<String>, patterns: Vec<String>) -> (first:
        Resolver)
        ensures
            first@ == begin(entries.deep_view(), manifest.deep_view(), patterns.deep_view()),
    {
        let found: Vec<String> = Vec::new();
        assert(found.deep_view() =~= Seq::<Seq<char>>::empty());
        Resolver::turn(entries, manifest, patterns, 0, found)
    }

    /// What the resolution needs to know next; `Request::Done` once it is
    /// over.
    pub fn pending(&self) -> (request: Request)
        ensures
            request@ == self@.pending(),
    {
        proof {
            use_type_invariant(self);
        }
        match &self.stage {
            Stage::EntryIsFile => Request::IsFile(self.entries[self.cursor].clone()),
            Stage::EntryIsDir => Request::IsDir(self.entries[self.cursor].clone()),
            Stage::EntryFiles => Request::ListFiles(self.entries[self.cursor].clone()),
            Stage::ManifestIsFile => match &self.manifest {
                Some(path) => Request::IsFile(path.clone()),
                None => Request::Done,
            },
            Stage::ManifestOpen => match &self.manifest {
                Some(path) => Request::OpenManifest(path.clone()),
                None => Request::Done,
            },
            Stage::NextLine => Request::ReadLine,
            Stage::LineExists(path) => Request::Exists(path.clone()),
            Stage::Finished(_) => Request::Done,
        }
    }

    /// Whether the resolution is over.
    pub fn is_done(&self) -> (done: bool)
        ensures
            done == (self@.stage is Finished),
    {
        match &self.stage {
            Stage::Finished(_) => true,
            _ => false,
        }
    }

    /// Takes `reply` as the answer to the pending request and moves on.
    pub fn step(self, reply: Reply) -> (next: Resolver)
        ensures
            next@ == self@.advance(reply@),
    {
        proof {
            use_type_invariant(&self);
        }
        let Resolver { entries, manifest, patterns, cursor, mut found, stage } = self;
        let ghost before = found.deep_view();
        assert(entries.deep_view().len() == entries.len());
        match (stage, reply) {
            (Stage::EntryIsFile, Reply::Flag(yes)) => {
                if yes {
                    found.push(entries[cursor].clone());
                    assert(found.deep_view() =~= before.push(entries.deep_view()[cursor as int]));
                    Resolver::turn(entries, manifest, patterns, cursor + 1, found)
                } else {
                    Resolver { entries, manifest, patterns, cursor, found, stage: Stage::EntryIsDir }
                }
            },
            (Stage::EntryIsDir, Reply::Flag(yes)) => {
                let stage = if yes {
                    Stage::EntryFiles
                } else {
                    Stage::Finished(Err(FatalError::PathNotFound(entries[cursor].clone())))
                };
                Resolver { entries, manifest, patterns, cursor, found, stage }
            },
            (Stage::EntryFiles, Reply::Files(files)) => {
                let mut files = files;
                let ghost listed = files.deep_view();
                found.append(&mut files);
                assert(found.deep_view() =~= before + listed);
                Resolver::turn(entries, manifest, patterns, cursor + 1, found)
            },
            (Stage::ManifestIsFile, Reply::Flag(yes)) => {
                let stage = if yes {
                    Stage::ManifestOpen
                } else {
                    match &manifest {
                        Some(path) => Stage::Finished(Err(FatalError::PathNotFound(path.clone()))),
                        None => Stage::ManifestIsFile,
                    }
                };
                Resolver { entries, manifest, patterns, cursor, found, stage }
            },
            (Stage::ManifestOpen, Reply::Opened) => {
                Resolver { entries, manifest, patterns, cursor, found, stage: Stage::NextLine }
            },
            (Stage::EntryFiles, Reply::Failed(details))
            | (Stage::ManifestOpen, Reply::Failed(details))
            | (Stage::NextLine, Reply::Failed(details)) => {
                let stage = Stage::Finished(Err(FatalError::IoError(details)));
                Resolver { entries, manifest, patterns, cursor, found, stage }
            },
            (Stage::NextLine, Reply::Line(text)) => {
                let stage = if text.as_str().is_empty() {
                    Stage::NextLine
                } else {
                    Stage::LineExists(text)
                };
                Resolver { entries, manifest, patterns, cursor, found, stage }
            },
            (Stage::NextLine, Reply::EndOfFile) => {
                let stage = Stage::Finished(Ok(filter_paths(&found, &patterns)));
                Resolver { entries, manifest, patterns, cursor, found, stage }
            },
            (Stage::LineExists(path), Reply::Flag(yes)) => {
                let stage = if yes {
                    found.push(path);
                    assert(found.deep_view() =~= before.push(path@));
                    Stage::NextLine
                } else {
                    Stage::Finished(Err(FatalError::PathNotFound(path)))
                };
                Resolver { entries, manifest, patterns, cursor, found, stage }
            },
            (stage, _) => Resolver { entries, manifest, patterns, cursor, found, stage },
        }
    }

    /// The outcome of the resolution once it is over: the backup set, or the
    /// error that stopped it. `None` while a request is pending.
    pub fn into_outcome(self) -> (outcome: Option<Result<Vec<String>, FatalError>>)
        ensures
            match self@.stage {
                StageView::Finished(o) => outcome matches Some(r) && outcome_view(r) == o,
                _ => outcome is None,
            },
    {
        match self.stage {
            Stage::Finished(outcome) => Some(outcome),
            _ => None,
        }
    }
}

/// The state in which a resolution starts.
pub open spec fn begin(
    entries: Seq<Seq<char>>,
    manifest: Option<Seq<char>>,
    patterns: Seq<Seq<char>>,
) -> ResolverView {
    ResolverView {
        entries,
        manifest,
        patterns,
        cursor: 0,
        found: Seq::empty(),
        stage: StageView::EntryIsFile,
    }.turn(0, Seq::empty())
}

/// A resolution starts in a state that it can be in.
pub proof fn lemma_begin_well_formed(
    entries: Seq<Seq<char>>,
    manifest: Option<Seq<char>>,
    patterns: Seq<Seq<char>>,
)
    ensures
        begin(entries, manifest, patterns).well_formed(),
{
}

/// Whatever the reply, a resolution stays in a state that it can be in, and
/// keeps the request it was started with.
pub proof fn lemma_advance_well_formed(state: ResolverView, reply: ReplyView)
    requires
        state.well_formed(),
    ensures
        state.advance(reply).well_formed(),
        state.advance(reply).entries == state.entries,
        state.advance(reply).manifest == state.manifest,
        state.advance(reply).patterns == state.patterns,
{
}

/// A resolution that is over stays over, with the same outcome.
pub proof fn lemma_finished_is_final(state: ResolverView, reply: ReplyView)
    requires
        state.stage is Finished,
    ensures
        state.advance(reply) == state,
{
}

} // verus!
