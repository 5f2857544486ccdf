//! Gather ("take") kernel for columnar in-memory arrays.
//!
//! Given a source column and a column of row indices (either of which may
//! carry nulls), `take::take` produces a new column holding the selected
//! rows.  The kernel is specialized over four physical encodings —
//! fixed-width primitives, bit-packed booleans, variable-length byte rows
//! addressed through an offsets sequence, and dictionary-encoded columns —
//! and applies one two-source null rule throughout: an output row is null
//! exactly when the index is null or the referenced source row is null.

pub mod array;
pub mod bitmap;
pub mod datatypes;
pub mod error;
pub mod gather;
pub mod take;
