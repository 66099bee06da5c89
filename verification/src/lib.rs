//! Resolution of a backup request into the list of files to copy.
//!
//! A request names files and directories, a manifest that lists further
//! paths, and patterns to exclude. Resolving it gives the backup set: the
//! files named, the files beneath the directories, the paths that the
//! manifest lists, without those whose text contains a pattern.
//!
//! The library decides; it never looks at the disk. [`Opt::validate_paths`]
//! starts a [`Resolver`], which asks one question at a time and is told the
//! answer. What comes out is fixed by the request and the answers alone, as
//! the module [`disk`] states and proves.

pub mod args;
pub mod disk;
pub mod error;
pub mod exclude;
pub mod protocol;
pub mod resolver;
pub mod text;

pub use args::Opt;
pub use error::FatalError;
pub use exclude::filter_paths;
pub use protocol::{Reply, Request};
pub use resolver::Resolver;
