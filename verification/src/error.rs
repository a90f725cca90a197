//! The failure conditions of array construction and printing. Each one
//! aborts the operation in progress and leaves every existing array intact.

use vstd::prelude::*;

verus! {

/// Why an operation was refused.
#[derive(Clone, Copy, PartialEq, Eq, Structural, Debug)]
pub enum NdError {
    /// A scalar in the host sequence is not numeric.
    NonNumericData,
    /// Pack or unpack met a `(kind, item_size)` pair it does not support.
    UnsupportedDtype,
    /// The buffer length is not a multiple of the dtype's item size.
    MalformedBuffer,
}

} // verus!
