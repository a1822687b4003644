//! The error taxonomy of the backup and restore engines.

use crate::resolver::Token;
use vstd::prelude::*;

verus! {

/// Everything that can go wrong while resolving, backing up or restoring
/// one application's save files.
#[derive(Debug)]
pub enum EngineError {
    /// A template asked for a placeholder that the current context cannot
    /// resolve: a caller bug, never retried.
    MissingContext(Token),
    /// One rule path could not be resolved; it is skipped while its
    /// siblings are still processed.  Carries the rule as written.
    UnresolvableRule(String),
    /// The archive directory could not be created: fatal for this
    /// application's backup.
    DirectoryCreationFailed,
    /// A pre-existing manifest could not be parsed; the caller decides
    /// whether to treat it as absent or to abort.
    MalformedManifest,
    /// A restore was asked for an application that is not installed.
    ApplicationNotFound,
    /// An archived file is missing or does not match the hash recorded in
    /// the manifest; carries that file's name.  The restore aborts before
    /// copying anything.
    CorruptedArchive(String),
}

} // verus!
