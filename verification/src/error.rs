//! The error taxonomy of the engine.

use vstd::prelude::*;

verus! {

/// Why an engine operation was refused or failed.
#[derive(Clone, Copy, Debug, PartialEq, Eq, Structural)]
pub enum EngineError {
    /// A database is missing, cannot be opened, or lacks the expected
    /// schema.
    Connection,
    /// A query names a column or expression the table does not have.
    Query,
    /// The engine input itself is invalid, such as an empty tie-break
    /// rule list; rejected before any data is touched.
    Configuration,
}

} // verus!
