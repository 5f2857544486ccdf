//! Validity bitmaps and bit-packed boolean storage.
//!
//! A [`Bitmap`] records one flag per row.  Attached to a column as its
//! validity it marks each row valid (`true`) or null (`false`); in a
//! boolean column it holds the row values themselves.

use vstd::prelude::*;

verus! {

/// One flag per row, the abstract content of a row-level bitmap.
#[derive(Clone, Debug)]
pub struct Bitmap {
    pub bits: Vec<bool>,
}

impl View for Bitmap {
    type V = Seq<bool>;

    open spec fn view(&self) -> Seq<bool> {
        self.bits@
    }
}

impl Bitmap {
    /// Number of rows the bitmap covers.
    pub fn len(&self) -> (n: usize)
        ensures
            n == self@.len(),
    {
        self.bits.len()
    }

    /// The bit of row `i`.
    pub fn get(&self, i: usize) -> (b: bool)
        requires
            i < self@.len(),
        ensures
            b == self@[i as int],
    {
        self.bits[i]
    }
}

/// The row validity an optional bitmap encodes: an absent bitmap means
/// every row is valid.
pub open spec fn valid_at(validity: Option<Bitmap>, i: int) -> bool {
    match validity {
        None => true,
        Some(b) => b@[i],
    }
}

} // verus!
