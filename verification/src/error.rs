//! The fatal ingestion failures. Per-row defects (an unrecognized date, an
//! unparsable or non-positive quantity) are not errors: the row is dropped.

use vstd::prelude::*;

verus! {

/// A structural defect that aborts ingestion of a sheet.
#[derive(Debug, Clone, PartialEq, Eq)]
pub enum IngestError {
    /// A required column name had no match in the header row.
    MissingColumn(String),
    /// The grid is too short to hold the expected preamble and header row.
    MalformedInput,
}

} // verus!
