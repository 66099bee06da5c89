//! What a resolution amounts to: the backup set as a function of the request
//! and of what is on disk, and the proof that the resolver computes it.

use crate::error::{FatalErrorView, Outcome};
use crate::exclude::{lemma_retained_sound, retained};
use crate::protocol::{ReplyView, RequestView};
use crate::resolver::{begin, ResolverView, StageView};
use crate::text::contains;
use vstd::prelude::*;

verus! {

/// One line of a manifest as the reader hands it over: its text, or the
/// details of the failure to read it.
pub type ManifestLine = Result<Seq<char>, Seq<char>>;

/// What the file system answers, for every path, at the time of a
/// resolution.
pub struct Disk {
    /// Whether the path is a regular file.
    pub is_file: spec_fn(Seq<char>) -> bool,
    /// Whether the path is a directory.
    pub is_dir: spec_fn(Seq<char>) -> bool,
    /// Whether anything exists at the path.
    pub exists: spec_fn(Seq<char>) -> bool,
    /// The regular files beneath a directory, in the order of the walk, or
    /// the details of the failure to enumerate them.
    pub files_beneath: spec_fn(Seq<char>) -> Result<Seq<Seq<char>>, Seq<char>>,
    /// `None` where the file at the path can be opened for reading, else the
    /// details of the failure.
    pub open_failure: spec_fn(Seq<char>) -> Option<Seq<char>>,
    /// The lines that reading the file at the path gives.
    pub lines: spec_fn(Seq<char>) -> Seq<ManifestLine>,
}

/// The first outcome, followed by the second: the first error in that
/// order, or else the paths of both, one after the other.
pub open spec fn followed_by(first: Outcome, second: Outcome) -> Outcome {
    match first {
        Err(e) => Err(e),
        Ok(a) => match second {
            Err(e) => Err(e),
            Ok(b) => Ok(a + b),
        },
    }
}

/// What one explicit entry gives: itself where it is a regular file, the
/// files beneath it where it is a directory, and no path at all otherwise.
pub open spec fn entry_yield(disk: Disk, path: Seq<char>) -> Outcome {
    if (disk.is_file)(path) {
        Ok(seq![path])
    } else if (disk.is_dir)(path) {
        match (disk.files_beneath)(path) {
            Ok(files) => Ok(files),
            Err(details) => Err(FatalErrorView::IoError(details)),
        }
    } else {
        Err(FatalErrorView::PathNotFound(path))
    }
}

/// What the explicit entries give, taken from first to last.
pub open spec fn entries_yield(disk: Disk, entries: Seq<Seq<char>>) -> Outcome
    decreases entries.len(),
{
    if entries.len() == 0 {
        Ok(Seq::empty())
    } else {
        followed_by(entries_yield(disk, entries.drop_last()), entry_yield(disk, entries.last()))
    }
}

/// What one line of the manifest gives: nothing where it is empty, the path
/// it names where that exists, be it a file or not.
pub open spec fn line_yield(disk: Disk, line: ManifestLine) -> Outcome {
    match line {
        Err(details) => Err(FatalErrorView::IoError(details)),
        Ok(text) => if text.len() == 0 {
            Ok(Seq::empty())
        } else if (disk.exists)(text) {
            Ok(seq![text])
        } else {
            Err(FatalErrorView::PathNotFound(text))
        },
    }
}

/// What the lines of a manifest give, taken from first to last.
pub open spec fn lines_yield(disk: Disk, lines: Seq<ManifestLine>) -> Outcome
    decreases lines.len(),
{
    if lines.len() == 0 {
        Ok(Seq::empty())
    } else {
        followed_by(lines_yield(disk, lines.drop_last()), line_yield(disk, lines.last()))
    }
}

/// What the manifest gives. Without a manifest that is nothing, and no
/// error.
pub open spec fn manifest_yield(disk: Disk, manifest: Option<Seq<char>>) -> Outcome {
    match manifest {
        None => Ok(Seq::empty()),
        Some(path) => if !(disk.is_file)(path) {
            Err(FatalErrorView::PathNotFound(path))
        } else {
            match (disk.open_failure)(path) {
                Some(details) => Err(FatalErrorView::IoError(details)),
                None => lines_yield(disk, (disk.lines)(path)),
            }
        },
    }
}

/// The resolved paths: what the explicit entries give, then what the
/// manifest gives. Nothing is removed for occurring twice.
pub open spec fn resolved(disk: Disk, entries: Seq<Seq<char>>, manifest: Option<Seq<char>>) -> Outcome {
    followed_by(entries_yield(disk, entries), manifest_yield(disk, manifest))
}

/// The backup set: the resolved paths without those that a pattern excludes.
pub open spec fn backup_set(
    disk: Disk,
    entries: Seq<Seq<char>>,
    manifest: Option<Seq<char>>,
    patterns: Seq<Seq<char>>,
) -> Outcome {
    match resolved(disk, entries, manifest) {
        Ok(paths) => Ok(retained(paths, patterns)),
        Err(e) => Err(e),
    }
}

/// The lines of the manifest of a request; none where it has no manifest.
pub open spec fn manifest_lines(disk: Disk, manifest: Option<Seq<char>>) -> Seq<ManifestLine> {
    match manifest {
        Some(path) => (disk.lines)(path),
        None => Seq::empty(),
    }
}

/// The answer that `disk` gives to the pending request of `state`, after
/// `lines_read` lines of the manifest have been read.
pub open spec fn reply_of(disk: Disk, state: ResolverView, lines_read: nat) -> ReplyView {
    let lines = manifest_lines(disk, state.manifest);
    match state.pending() {
        RequestView::IsFile(path) => ReplyView::Flag((disk.is_file)(path)),
        RequestView::IsDir(path) => ReplyView::Flag((disk.is_dir)(path)),
        RequestView::Exists(path) => ReplyView::Flag((disk.exists)(path)),
        RequestView::ListFiles(path) => match (disk.files_beneath)(path) {
            Ok(files) => ReplyView::Files(files),
            Err(details) => ReplyView::Failed(details),
        },
        RequestView::OpenManifest(path) => match (disk.open_failure)(path) {
            None => ReplyView::Opened,
            Some(details) => ReplyView::Failed(details),
        },
        RequestView::ReadLine => if lines_read < lines.len() {
            match lines[lines_read as int] {
                Ok(text) => ReplyView::Line(text),
                Err(details) => ReplyView::Failed(details),
            }
        } else {
            ReplyView::EndOfFile
        },
        RequestView::Done => ReplyView::EndOfFile,
    }
}

/// The number of manifest lines read once the pending request of `state` is
/// answered.
pub open spec fn lines_read_after(state: ResolverView, lines_read: nat) -> nat {
    if state.pending() is ReadLine {
        lines_read + 1
    } else {
        lines_read
    }
}

/// The state that a driver reaches from `state` when it answers up to
/// `steps` requests from `disk`, stopping when the resolution is over.
pub open spec fn drive(disk: Disk, state: ResolverView, lines_read: nat, steps: nat) -> ResolverView
    decreases steps,
{
    if steps == 0 || state.stage is Finished {
        state
    } else {
        drive(
            disk,
            state.advance(reply_of(disk, state, lines_read)),
            lines_read_after(state, lines_read),
            (steps - 1) as nat,
        )
    }
}

/// A number of requests within which every resolution of the request is
/// over: three for each explicit entry, two for each line of the manifest,
/// and four more.
pub open spec fn request_bound(
    disk: Disk,
    entries: Seq<Seq<char>>,
    manifest: Option<Seq<char>>,
) -> nat {
    3 * entries.len() + 2 * manifest_lines(disk, manifest).len() + 4
}

/// An upper bound on the requests that are left in `state`.
spec fn requests_left(disk: Disk, state: ResolverView, lines_read: nat) -> int {
    let lines_left = manifest_lines(disk, state.manifest).len() - lines_read;
    let all_lines = manifest_lines(disk, state.manifest).len() as int;
    let entries_left = state.entries.len() - state.cursor;
    match state.stage {
        StageView::EntryIsFile => 3 * entries_left + 2 * all_lines + 4,
        StageView::EntryIsDir => 3 * entries_left + 2 * all_lines + 3,
        StageView::EntryFiles => 3 * entries_left + 2 * all_lines + 2,
        StageView::ManifestIsFile => 2 * all_lines + 3,
        StageView::ManifestOpen => 2 * all_lines + 2,
        StageView::NextLine => 2 * lines_left + 1,
        StageView::LineExists(_) => 2 * lines_left + 2,
        StageView::Finished(_) => 0,
    }
}

/// `state` is what a resolution driven from `disk` has come to after
/// `lines_read` lines of the manifest: what it has found is what the part of
/// the request dealt with so far gives.
spec fn on_course(disk: Disk, state: ResolverView, lines_read: nat) -> bool {
    let lines = manifest_lines(disk, state.manifest);
    let entry = state.entries[state.cursor];
    let so_far = entries_yield(disk, state.entries.take(state.cursor));
    let opened = state.manifest matches Some(path) && (disk.is_file)(path) && (disk.open_failure)(
        path,
    ) is None;
    let found: Outcome = Ok(state.found);
    &&& state.well_formed()
    &&& match state.stage {
        StageView::EntryIsFile => lines_read == 0 && so_far == found,
        StageView::EntryIsDir => lines_read == 0 && so_far == found && !(disk.is_file)(entry),
        StageView::EntryFiles => {
            &&& lines_read == 0
            &&& so_far == found
            &&& !(disk.is_file)(entry)
            &&& (disk.is_dir)(entry)
        },
        StageView::ManifestIsFile => {
            &&& lines_read == 0
            &&& entries_yield(disk, state.entries) == found
        },
        StageView::ManifestOpen => {
            &&& lines_read == 0
            &&& entries_yield(disk, state.entries) == found
            &&& (disk.is_file)(state.manifest->0)
        },
        StageView::NextLine => {
            &&& opened
            &&& lines_read <= lines.len()
            &&& followed_by(
                entries_yield(disk, state.entries),
                lines_yield(disk, lines.take(lines_read as int)),
            ) == found
        },
        StageView::LineExists(path) => {
            &&& opened
            &&& 1 <= lines_read <= lines.len()
            &&& lines[lines_read - 1] == Ok::<Seq<char>, Seq<char>>(path)
            &&& path.len() > 0
            &&& followed_by(
                entries_yield(disk, state.entries),
                lines_yield(disk, lines.take(lines_read - 1)),
            ) == found
        },
        StageView::Finished(outcome) => outcome == backup_set(
            disk,
            state.entries,
            state.manifest,
            state.patterns,
        ),
    }
}

/// Where the first `k` entries already fail, all of them fail the same way.
proof fn lemma_entries_fail_early(disk: Disk, entries: Seq<Seq<char>>, k: int)
    requires
        0 <= k <= entries.len(),
        entries_yield(disk, entries.take(k)) is Err,
    ensures
        entries_yield(disk, entries) == entries_yield(disk, entries.take(k)),
    decreases entries.len(),
{
    if k == entries.len() {
        assert(entries.take(k) =~= entries);
    } else {
        assert(entries.drop_last().take(k) =~= entries.take(k));
        lemma_entries_fail_early(disk, entries.drop_last(), k);
    }
}

/// Where the first `k` lines already fail, all of them fail the same way.
proof fn lemma_lines_fail_early(disk: Disk, lines: Seq<ManifestLine>, k: int)
    requires
        0 <= k <= lines.len(),
        lines_yield(disk, lines.take(k)) is Err,
    ensures
        lines_yield(disk, lines) == lines_yield(disk, lines.take(k)),
    decreases lines.len(),
{
    if k == lines.len() {
        assert(lines.take(k) =~= lines);
    } else {
        assert(lines.drop_last().take(k) =~= lines.take(k));
        lemma_lines_fail_early(disk, lines.drop_last(), k);
    }
}

/// What the first `k + 1` entries give is what the first `k` give, followed
/// by what entry `k` gives.
proof fn lemma_entries_one_more(disk: Disk, entries: Seq<Seq<char>>, k: int)
    requires
        0 <= k < entries.len(),
    ensures
        entries_yield(disk, entries.take(k + 1)) == followed_by(
            entries_yield(disk, entries.take(k)),
            entry_yield(disk, entries[k]),
        ),
{
    assert(entries.take(k + 1).drop_last() =~= entries.take(k));
}

/// What the first `k + 1` lines give is what the first `k` give, followed by
/// what line `k` gives.
proof fn lemma_lines_one_more(disk: Disk, lines: Seq<ManifestLine>, k: int)
    requires
        0 <= k < lines.len(),
    ensures
        lines_yield(disk, lines.take(k + 1)) == followed_by(
            lines_yield(disk, lines.take(k)),
            line_yield(disk, lines[k]),
        ),
{
    assert(lines.take(k + 1).drop_last() =~= lines.take(k));
}

/// One answer from the disk keeps a resolution on course and brings it
/// nearer to its end.
proof fn lemma_step_on_course(disk: Disk, state: ResolverView, lines_read: nat)
    requires
        on_course(disk, state, lines_read),
        !(state.stage is Finished),
    ensures
        on_course(
            disk,
            state.advance(reply_of(disk, state, lines_read)),
            lines_read_after(state, lines_read),
        ),
        0 <= requests_left(
            disk,
            state.advance(reply_of(disk, state, lines_read)),
            lines_read_after(state, lines_read),
        ) < requests_left(disk, state, lines_read),
{
    let lines = manifest_lines(disk, state.manifest);
    let entries = state.entries;
    let c = state.cursor;
    let read = lines_read as int;
    match state.stage {
        StageView::EntryIsFile | StageView::EntryIsDir | StageView::EntryFiles => {
            lemma_entries_one_more(disk, entries, c);
            assert(state.found.push(entries[c]) =~= state.found + seq![entries[c]]);
            if entries_yield(disk, entries.take(c + 1)) is Err {
                lemma_entries_fail_early(disk, entries, c + 1);
            }
        },
        StageView::NextLine => {
            if read < lines.len() {
                lemma_lines_one_more(disk, lines, read);
                if lines_yield(disk, lines.take(read + 1)) is Err {
                    lemma_lines_fail_early(disk, lines, read + 1);
                }
            } else {
                assert(lines.take(read) =~= lines);
            }
        },
        StageView::LineExists(path) => {
            lemma_lines_one_more(disk, lines, read - 1);
            let before = lines_yield(disk, lines.take(read - 1));
            assert(state.found.push(path) =~= state.found + seq![path]);
            if before is Ok {
                let a = entries_yield(disk, entries)->Ok_0;
                let b = before->Ok_0;
                assert((a + b) + seq![path] =~= a + (b + seq![path]));
            }
            if lines_yield(disk, lines.take(read)) is Err {
                lemma_lines_fail_early(disk, lines, read);
            }
        },
        _ => {},
    }
}

/// A resolution that is on course ends with the backup set, after no more
/// answers from the disk than it has requests left.
proof fn lemma_drive_on_course(disk: Disk, state: ResolverView, lines_read: nat)
    requires
        on_course(disk, state, lines_read),
    ensures
        0 <= requests_left(disk, state, lines_read),
        exists|steps: nat|
            steps <= requests_left(disk, state, lines_read) && (#[trigger] drive(
                disk,
                state,
                lines_read,
                steps,
            )).stage == StageView::Finished(
                backup_set(disk, state.entries, state.manifest, state.patterns),
            ),
    decreases requests_left(disk, state, lines_read),
{
    let goal = StageView::Finished(
        backup_set(disk, state.entries, state.manifest, state.patterns),
    );
    if state.stage is Finished {
        assert(drive(disk, state, lines_read, 0).stage == goal);
    } else {
        let next = state.advance(reply_of(disk, state, lines_read));
        let read = lines_read_after(state, lines_read);
        lemma_step_on_course(disk, state, lines_read);
        lemma_drive_on_course(disk, next, read);
        let rest = choose|steps: nat|
            steps <= requests_left(disk, next, read) && (#[trigger] drive(
                disk,
                next,
                read,
                steps,
            )).stage == goal;
        assert(drive(disk, state, lines_read, rest + 1) == drive(disk, next, read, rest));
    }
}

/// The resolver computes the backup set: whatever is on disk, a driver that
/// starts a resolution and answers each pending request from the disk comes
/// to the end of the resolution within `request_bound` requests, and the
/// outcome is `backup_set`.
pub proof fn lemma_resolver_computes_backup_set(
    disk: Disk,
    entries: Seq<Seq<char>>,
    manifest: Option<Seq<char>>,
    patterns: Seq<Seq<char>>,
)
    ensures
        exists|steps: nat|
            steps <= request_bound(disk, entries, manifest) && (#[trigger] drive(
                disk,
                begin(entries, manifest, patterns),
                0,
                steps,
            )).stage == StageView::Finished(backup_set(disk, entries, manifest, patterns)),
{
    let first = begin(entries, manifest, patterns);
    lemma_drive_on_course(disk, first, 0);
}

/// Nothing usable is at the path of an explicit entry: neither a regular
/// file nor a directory.
pub open spec fn entry_missing(disk: Disk, path: Seq<char>) -> bool {
    !(disk.is_file)(path) && !(disk.is_dir)(path)
}

/// The line names a path, and nothing exists there.
pub open spec fn line_missing(disk: Disk, line: ManifestLine) -> bool {
    line matches Ok(text) && text.len() > 0 && !(disk.exists)(text)
}

/// Something that the request names is not on disk: an explicit entry, the
/// manifest, or a path that a line of the manifest names.
pub open spec fn something_missing(
    disk: Disk,
    entries: Seq<Seq<char>>,
    manifest: Option<Seq<char>>,
) -> bool {
    ||| exists|k: int| 0 <= k < entries.len() && entry_missing(disk, #[trigger] entries[k])
    ||| manifest matches Some(path) && !(disk.is_file)(path)
    ||| exists|k: int|
        0 <= k < manifest_lines(disk, manifest).len() && line_missing(
            disk,
            #[trigger] manifest_lines(disk, manifest)[k],
        )
}

/// The position in the resolved paths at which the paths of entry `k`
/// begin: the number of paths that the entries before it give.
pub open spec fn entry_offset(disk: Disk, entries: Seq<Seq<char>>, k: int) -> int {
    match entries_yield(disk, entries.take(k)) {
        Ok(paths) => paths.len() as int,
        Err(_) => 0,
    }
}

/// Where every entry before `k` gives paths, so do all of them together.
proof fn lemma_entries_all_ok(disk: Disk, entries: Seq<Seq<char>>, k: int)
    requires
        0 <= k <= entries.len(),
        forall|j: int| 0 <= j < k ==> entry_yield(disk, #[trigger] entries[j]) is Ok,
    ensures
        entries_yield(disk, entries.take(k)) is Ok,
    decreases k,
{
    if k > 0 {
        lemma_entries_all_ok(disk, entries, k - 1);
        lemma_entries_one_more(disk, entries, k - 1);
    }
}

/// Where every line before `k` gives paths, so do all of them together.
proof fn lemma_lines_all_ok(disk: Disk, lines: Seq<ManifestLine>, k: int)
    requires
        0 <= k <= lines.len(),
        forall|j: int| 0 <= j < k ==> line_yield(disk, #[trigger] lines[j]) is Ok,
    ensures
        lines_yield(disk, lines.take(k)) is Ok,
    decreases k,
{
    if k > 0 {
        lemma_lines_all_ok(disk, lines, k - 1);
        lemma_lines_one_more(disk, lines, k - 1);
    }
}

/// Where all entries give paths, what the first `k` give stands at the start
/// of it.
proof fn lemma_entries_prefix(disk: Disk, entries: Seq<Seq<char>>, k: int)
    requires
        0 <= k <= entries.len(),
        entries_yield(disk, entries) is Ok,
    ensures
        entries_yield(disk, entries.take(k)) is Ok,
        entries_yield(disk, entries.take(k))->Ok_0.is_prefix_of(
            entries_yield(disk, entries)->Ok_0,
        ),
    decreases entries.len(),
{
    if k == entries.len() {
        assert(entries.take(k) =~= entries);
    } else {
        assert(entries.drop_last().take(k) =~= entries.take(k));
        lemma_entries_prefix(disk, entries.drop_last(), k);
    }
}

/// A missing explicit entry is fatal. Where entry `k` is neither a regular
/// file nor a directory, and every entry before it gives paths, resolution
/// fails with `PathNotFound` of that very entry, whatever follows it, and
/// there is no backup set.
pub proof fn lemma_missing_entry_is_fatal(
    disk: Disk,
    entries: Seq<Seq<char>>,
    manifest: Option<Seq<char>>,
    patterns: Seq<Seq<char>>,
    k: int,
)
    requires
        0 <= k < entries.len(),
        entry_missing(disk, entries[k]),
        forall|j: int| 0 <= j < k ==> entry_yield(disk, #[trigger] entries[j]) is Ok,
    ensures
        resolved(disk, entries, manifest) == Outcome::Err(FatalErrorView::PathNotFound(entries[k])),
        backup_set(disk, entries, manifest, patterns) == Outcome::Err(
            FatalErrorView::PathNotFound(entries[k]),
        ),
{
    lemma_entries_all_ok(disk, entries, k);
    lemma_entries_one_more(disk, entries, k);
    lemma_entries_fail_early(disk, entries, k + 1);
}

/// A missing manifest is fatal. Where every explicit entry gives paths and
/// the manifest is no regular file, resolution fails with `PathNotFound` of
/// the manifest's path, and there is no backup set.
pub proof fn lemma_missing_manifest_is_fatal(
    disk: Disk,
    entries: Seq<Seq<char>>,
    path: Seq<char>,
    patterns: Seq<Seq<char>>,
)
    requires
        forall|j: int| 0 <= j < entries.len() ==> entry_yield(disk, #[trigger] entries[j]) is Ok,
        !(disk.is_file)(path),
    ensures
        resolved(disk, entries, Some(path)) == Outcome::Err(FatalErrorView::PathNotFound(path)),
        backup_set(disk, entries, Some(path), patterns) == Outcome::Err(
            FatalErrorView::PathNotFound(path),
        ),
{
    lemma_entries_all_ok(disk, entries, entries.len() as int);
    assert(entries.take(entries.len() as int) =~= entries);
}

/// A missing path in the manifest is fatal. Where every explicit entry gives
/// paths, the manifest is a regular file that opens, line `k` names a path
/// at which nothing exists, and every line before it gives paths, resolution
/// fails with `PathNotFound` of the path that line `k` names, and there is
/// no backup set.
pub proof fn lemma_missing_line_is_fatal(
    disk: Disk,
    entries: Seq<Seq<char>>,
    path: Seq<char>,
    patterns: Seq<Seq<char>>,
    k: int,
)
    requires
        forall|j: int| 0 <= j < entries.len() ==> entry_yield(disk, #[trigger] entries[j]) is Ok,
        (disk.is_file)(path),
        (disk.open_failure)(path) is None,
        0 <= k < (disk.lines)(path).len(),
        line_missing(disk, (disk.lines)(path)[k]),
        forall|j: int| 0 <= j < k ==> line_yield(disk, #[trigger] (disk.lines)(path)[j]) is Ok,
    ensures
        resolved(disk, entries, Some(path)) == Outcome::Err(
            FatalErrorView::PathNotFound((disk.lines)(path)[k]->Ok_0),
        ),
        backup_set(disk, entries, Some(path), patterns) == Outcome::Err(
            FatalErrorView::PathNotFound((disk.lines)(path)[k]->Ok_0),
        ),
{
    let lines = (disk.lines)(path);
    lemma_entries_all_ok(disk, entries, entries.len() as int);
    assert(entries.take(entries.len() as int) =~= entries);
    lemma_lines_all_ok(disk, lines, k);
    lemma_lines_one_more(disk, lines, k);
    lemma_lines_fail_early(disk, lines, k + 1);
}

/// Where anything that the request names is missing, resolution fails, and
/// no backup set comes out, not even a partial one.
pub proof fn lemma_nothing_partial(
    disk: Disk,
    entries: Seq<Seq<char>>,
    manifest: Option<Seq<char>>,
    patterns: Seq<Seq<char>>,
)
    requires
        something_missing(disk, entries, manifest),
    ensures
        resolved(disk, entries, manifest) is Err,
        backup_set(disk, entries, manifest, patterns) is Err,
{
    let lines = manifest_lines(disk, manifest);
    if exists|k: int| 0 <= k < entries.len() && entry_missing(disk, #[trigger] entries[k]) {
        let k = choose|k: int| 0 <= k < entries.len() && entry_missing(disk, #[trigger] entries[k]);
        if entries_yield(disk, entries) is Ok {
            lemma_entries_prefix(disk, entries, k + 1);
            lemma_entries_one_more(disk, entries, k);
        }
    } else if exists|k: int| 0 <= k < lines.len() && line_missing(disk, #[trigger] lines[k]) {
        let k = choose|k: int| 0 <= k < lines.len() && line_missing(disk, #[trigger] lines[k]);
        if lines_yield(disk, lines) is Ok {
            lemma_lines_one_more(disk, lines, k);
            if lines_yield(disk, lines.take(k + 1)) is Err {
                lemma_lines_fail_early(disk, lines, k + 1);
            }
        }
    }
}

/// Expansion is complete. Where resolution succeeds, what each explicit
/// entry gives stands in the resolved paths as one block, whole and in
/// order; the blocks follow one another in the order of the entries,
/// starting at the front. For a directory the block is the list of the files
/// beneath it: each of them appears once for each time the walk came to it.
pub proof fn lemma_expansion_complete(
    disk: Disk,
    entries: Seq<Seq<char>>,
    manifest: Option<Seq<char>>,
    k: int,
)
    requires
        resolved(disk, entries, manifest) is Ok,
        0 <= k < entries.len(),
    ensures
        entry_yield(disk, entries[k]) is Ok,
        !(disk.is_file)(entries[k]) ==> (disk.files_beneath)(entries[k]) == Ok::<
            Seq<Seq<char>>,
            Seq<char>,
        >(entry_yield(disk, entries[k])->Ok_0),
        entry_offset(disk, entries, 0) == 0,
        entry_offset(disk, entries, k + 1) == entry_offset(disk, entries, k) + entry_yield(
            disk,
            entries[k],
        )->Ok_0.len(),
        0 <= entry_offset(disk, entries, k) <= entry_offset(disk, entries, k + 1) <= resolved(
            disk,
            entries,
            manifest,
        )->Ok_0.len(),
        resolved(disk, entries, manifest)->Ok_0.subrange(
            entry_offset(disk, entries, k),
            entry_offset(disk, entries, k + 1),
        ) == entry_yield(disk, entries[k])->Ok_0,
{
    let all = entries_yield(disk, entries)->Ok_0;
    let out = resolved(disk, entries, manifest)->Ok_0;
    let head = entries_yield(disk, entries.take(k))->Ok_0;
    let block = entry_yield(disk, entries[k])->Ok_0;
    lemma_entries_prefix(disk, entries, k);
    lemma_entries_prefix(disk, entries, k + 1);
    lemma_entries_one_more(disk, entries, k);
    let next = entries_yield(disk, entries.take(k + 1))->Ok_0;
    assert forall|i: int| 0 <= i < block.len() implies out[head.len() + i] == block[i] by {
        assert(all.subrange(0, next.len() as int)[head.len() + i] == all[head.len() + i]);
    }
}

/// The walk lists regular files only: whatever `disk` lists beneath a path
/// is a regular file on it.
pub open spec fn lists_regular_files(disk: Disk) -> bool {
    forall|dir: Seq<char>, i: int|
        (disk.files_beneath)(dir) is Ok && 0 <= i < (disk.files_beneath)(dir)->Ok_0.len() ==> (
        disk.is_file)(#[trigger] (disk.files_beneath)(dir)->Ok_0[i])
}

/// Directories are expanded, never included: where the walk lists regular
/// files only, every path that the explicit entries give is a regular file.
pub proof fn lemma_entries_give_regular_files(disk: Disk, entries: Seq<Seq<char>>)
    requires
        lists_regular_files(disk),
        entries_yield(disk, entries) is Ok,
    ensures
        forall|i: int|
            0 <= i < entries_yield(disk, entries)->Ok_0.len() ==> (disk.is_file)(
                #[trigger] entries_yield(disk, entries)->Ok_0[i],
            ),
    decreases entries.len(),
{
    if entries.len() > 0 {
        lemma_entries_give_regular_files(disk, entries.drop_last());
    }
}

/// The paths of the manifest come after those of the explicit entries: where
/// resolution succeeds, the resolved paths are what the entries give, as
/// they are, followed by what the manifest gives.
pub proof fn lemma_manifest_comes_last(
    disk: Disk,
    entries: Seq<Seq<char>>,
    manifest: Option<Seq<char>>,
)
    requires
        resolved(disk, entries, manifest) is Ok,
    ensures
        entries_yield(disk, entries) is Ok,
        manifest_yield(disk, manifest) is Ok,
        resolved(disk, entries, manifest)->Ok_0 == entries_yield(disk, entries)->Ok_0
            + manifest_yield(disk, manifest)->Ok_0,
        entry_offset(disk, entries, entries.len() as int) == entries_yield(
            disk,
            entries,
        )->Ok_0.len(),
{
    assert(entries.take(entries.len() as int) =~= entries);
}

/// Exclusion is sound for the whole pipeline: no path of a backup set
/// contains any of the patterns.
pub proof fn lemma_backup_set_sound(
    disk: Disk,
    entries: Seq<Seq<char>>,
    manifest: Option<Seq<char>>,
    patterns: Seq<Seq<char>>,
)
    requires
        backup_set(disk, entries, manifest, patterns) is Ok,
    ensures
        forall|i: int, k: int|
            0 <= i < backup_set(disk, entries, manifest, patterns)->Ok_0.len() && 0 <= k
                < patterns.len() ==> !contains(
                #[trigger] backup_set(disk, entries, manifest, patterns)->Ok_0[i],
                #[trigger] patterns[k],
            ),
{
    lemma_retained_sound(resolved(disk, entries, manifest)->Ok_0, patterns);
}

} // verus!
