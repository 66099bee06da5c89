//! The backup request, as the command line gave it.

use crate::resolver::{begin, Resolver};
use vstd::prelude::*;

verus! {

/// A backup request with its texts as sequences of characters.
pub struct OptView {
    /// The directory to put the copies in, if one was named.
    pub out: Option<Seq<char>>,
    /// Only list what would be backed up.
    pub dry_run: bool,
    /// Display nothing.
    pub quiet: bool,
    /// Display more.
    pub verbose: bool,
    /// The manifest: a file that lists one path on each line.
    pub file: Option<Seq<char>>,
    /// The explicit entries: files and directories to back up.
    pub list: Seq<Seq<char>>,
    /// Pack the copies into one compressed archive.
    pub tar: bool,
    /// The exclusion patterns.
    pub exclude: Seq<Seq<char>>,
}

impl OptView {
    /// The request names something to back up: a manifest, or at least one
    /// explicit entry.
    pub open spec fn has_source(self) -> bool {
        self.file is Some || self.list.len() > 0
    }
}

/// A backup request. It is made once and never changes. Every request names
/// a manifest or at least one explicit entry.
#[derive(Debug)]
pub struct Opt {
    out: Option<String>,
    dry_run: bool,
    quiet: bool,
    verbose: bool,
    file: Option<String>,
    list: Vec<String>,
    tar: bool,
    exclude: Vec<String>,
}

impl View for Opt {
    type V = OptView;

    closed spec fn view(&self) -> OptView {
        OptView {
            out: self.out.deep_view(),
            dry_run: self.dry_run,
            quiet: self.quiet,
            verbose: self.verbose,
            file: self.file.deep_view(),
            list: self.list.deep_view(),
            tar: self.tar,
            exclude: self.exclude.deep_view(),
        }
    }
}

/// A copy of a list of texts.
fn copy_texts(texts: &Vec<String>) -> (copy: Vec<String>)
    ensures
        copy.deep_view() == texts.deep_view(),
{
    let mut copy: Vec<String> = Vec::new();
    let mut i: usize = 0;
    while i < texts.len()
        invariant
            i <= texts.len(),
            copy.len() == i,
            forall|j: int| 0 <= j < i ==> copy@[j]@ == texts@[j]@,
        decreases texts.len() - i,
    {
        copy.push(texts[i].clone());
        i += 1;
    }
    copy
}

impl Opt {
    #[verifier::type_invariant]
    spec fn inv(&self) -> bool {
        self@.has_source()
    }

    /// The directory to put the copies in, if one was named.
    pub fn out(&self) -> (out: &Option<String>)
        ensures
            out.deep_view() == self@.out,
    {
        &self.out
    }

    /// Whether the files are only to be listed.
    pub fn dry_run(&self) -> (flag: bool)
        ensures
            flag == self@.dry_run,
    {
        self.dry_run
    }

    /// Whether nothing is to be displayed.
    pub fn quiet(&self) -> (flag: bool)
        ensures
            flag == self@.quiet,
    {
        self.quiet
    }

    /// Begins to resolve the request into its backup set: the explicit
    /// entries first, then the paths that the manifest lists, and at the end
    /// without the paths that a pattern excludes. The resolver that comes
    /// back has at least one question for the file system.
    pub fn validate_paths(&self) -> (first: Resolver)
        ensures
            self@.has_source(),
            first@ == begin(self@.list, self@.file, self@.exclude),
            !(first@.stage is Finished),
    {
        proof {
            use_type_invariant(self);
        }
        let manifest = match &self.file {
            Some(path) => Some(path.clone()),
            None => None,
        };
        Resolver::start(copy_texts(&self.list), manifest, copy_texts(&self.exclude))
    }

    /// Whether more is to be displayed.
    pub fn verbose(&self) -> (flag: bool)
        ensures
            flag == self@.verbose,
    {
        self.verbose
    }

    /// Whether the copies are to be packed into one compressed archive.
    pub fn tar(&self) -> (flag: bool)
        ensures
            flag == self@.tar,
    {
        self.tar
    }

    /// Makes the request from the values that the command line gave.
    pub fn new(
        out: Option<String>,
        dry_run: bool,
        quiet: bool,
        verbose: bool,
        file: Option<String>,
        list: Vec<String>,
        tar: bool,
        exclude: Vec<String>,
    ) -> (opt: Opt)
        requires
            file is Some || list.len() > 0,
        ensures
            opt@ == (OptView {
                out: out.deep_view(),
                dry_run,
                quiet,
                verbose,
                file: file.deep_view(),
                list: list.deep_view(),
                tar,
                exclude: exclude.deep_view(),
            }),
            opt@.has_source(),
    {
        Opt { out, dry_run, quiet, verbose, file, list, tar, exclude }
    }
}

} // verus!
