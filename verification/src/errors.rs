//! The error taxonomy of an extraction, one variant per stage.

use vstd::prelude::*;

verus! {

/// Why an extraction failed.  Every error is terminal for the operation:
/// there is no retry and no partial-success mode.
#[derive(Debug)]
pub enum ExtractError {
    /// The bounding box text is not four comma-separated decimal numbers.
    /// Carries which part of the text failed: the field count or the
    /// edge whose value could not be read.
    InvalidBoundingBox(String),
    /// The source path is missing, unreadable, or not a valid archive.
    /// Carries the storage engine's message.
    SourceUnreadable(String),
    /// The destination could not be created, or its schema could not be
    /// written.  Carries the storage engine's message.
    DestinationUnwritable(String),
    /// A row-level read or write failed while copying metadata or tiles.
    /// Carries the storage engine's message.
    CopyFailure(String),
}

} // verus!
