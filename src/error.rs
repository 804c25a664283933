//! Errors that stop the report for one origin page.
use vstd::prelude::*;

verus! {

#[derive(Clone, Copy, Debug, PartialEq, Eq, Structural)]
pub enum IndexError {
    /// The page holds no configuration invocation.
    MissingConfiguration,
    /// A dated mask was given without `first_archive`.
    MissingFirstArchive,
    /// A mask value in no recognized form.
    UnrecognizedMask,
    /// `first_archive` does not match its dated mask.
    FirstArchiveMismatch,
    /// The target page lacks the marker that allows the report to overwrite it.
    TargetMissingSafetyMarker,
    /// No threads were found, which usually means a broken mask.
    ZeroThreads,
}

} // verus!
