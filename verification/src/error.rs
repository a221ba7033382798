//! What can fail while one source is turned into an edition.

use vstd::prelude::*;

verus! {

/// Why a source produced no edition. Each of these ends the work on that
/// source only; the sources behind it are still processed.
#[derive(Debug, Clone, Copy, PartialEq, Eq)]
pub enum SourceError {
    /// The article table is empty: there is no latest identifier.
    EmptyEdition,
    /// The latest identifier is shorter than an edition prefix.
    MalformedIdentifier,
    /// A heading line of an article lacks its closing tag.
    MarkupStructure { article: usize, line: usize },
    /// The clock gave a date that cannot be written down.
    Clock,
    /// A query was refused or the database could not be opened.
    Query,
    /// A file could not be written or moved, or the compiler failed.
    Io,
}

} // verus!
