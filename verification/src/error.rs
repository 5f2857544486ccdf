//! Failure conditions of the gather kernel.

use vstd::prelude::*;

verus! {

/// Every failure a gather call can report.  All of them are fatal to the
/// call: no partial output is ever returned.
#[derive(Clone, Copy, Debug, PartialEq, Eq, Structural)]
pub enum Error {
    /// The source column's logical type has no gather implementation.
    NotYetImplemented,
    /// An index or dictionary-key value is negative or too wide to address
    /// a buffer, so it cannot be converted to a buffer position.
    DictionaryKeyOverflow,
    /// The accumulated byte total of a variable-length gather exceeds the
    /// representable range of the output's offset width.
    Overflow,
}

} // verus!
