//! The one way in which handing bytes to the platform log can fail.

use vstd::prelude::*;

verus! {

/// The bytes hold a zero byte, so they cannot be written as a
/// nul-terminated string.
#[derive(Clone, Copy, Debug, PartialEq, Eq, Structural)]
pub struct EncodingError;

} // verus!
