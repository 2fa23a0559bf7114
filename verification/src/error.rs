//! The ways in which reading debugging information can fail.

use vstd::prelude::*;

verus! {

/// Why an operation on debugging information did not produce a value.
#[derive(Clone, Copy, Debug, PartialEq, Eq, Structural)]
pub enum Error {
    /// A read ran past the bytes that are available.
    Truncated,
    /// A value did not decode to the expected shape, such as bytes that are
    /// not text where a string was expected.
    InvalidEncoding,
    /// An address of a width other than 1, 2, 4 or 8 bytes.
    UnsupportedAddressSize(u8),
    /// A form of the format that is intentionally not modelled.
    UnsupportedEncoding,
    /// The tree of entries is not well formed: a negative depth, a dangling
    /// reference, a missing attribute that the tag requires, or references
    /// that nest beyond the depth limit.
    MalformedTree,
}

} // verus!
