//! Byte strings in the form the platform log takes them: no zero byte among
//! the content, and one zero byte behind it.

use vstd::prelude::*;

use crate::error::EncodingError;

verus! {

/// Whether some byte of `bytes` is zero.
pub open spec fn has_nul(bytes: Seq<u8>) -> bool {
    exists|i: int| 0 <= i < bytes.len() && bytes[i] == 0u8
}

/// Looks for a zero byte in `bytes`.
pub fn contains_nul(bytes: &[u8]) -> (found: bool)
    ensures
        found == has_nul(bytes@),
{
    let mut i: usize = 0;
    while i < bytes.len()
        invariant
            i <= bytes.len(),
            forall|j: int| 0 <= j < i ==> bytes@[j] != 0u8,
        decreases bytes.len() - i,
    {
        if bytes[i] == 0 {
            return true;
        }
        i += 1;
    }
    false
}

/// A nul-terminated byte string.
///
/// The content holds no zero byte; the stored bytes are the content and one
/// zero byte behind it.
pub struct CBytes {
    raw: Vec<u8>,
}

impl View for CBytes {
    type V = Seq<u8>;

    /// The content, without the terminator.
    closed spec fn view(&self) -> Seq<u8> {
        self.raw@.drop_last()
    }
}

impl CBytes {
    #[verifier::type_invariant]
    spec fn inv(&self) -> bool {
        &&& self.raw@.len() >= 1
        &&& self.raw@.last() == 0u8
        &&& !has_nul(self.raw@.drop_last())
    }

    /// Terminates `bytes` with a zero byte, or refuses them where they hold
    /// a zero byte themselves.
    pub fn new(bytes: Vec<u8>) -> (r: Result<CBytes, EncodingError>)
        ensures
            r is Ok <==> !has_nul(bytes@),
            r is Ok ==> r->Ok_0@ == bytes@,
    {
        if contains_nul(bytes.as_slice()) {
            return Err(EncodingError);
        }
        let mut raw = bytes;
        raw.push(0u8);
        assert(raw@.drop_last() == bytes@);
        Ok(CBytes { raw })
    }

    /// The length of the content in bytes.
    pub fn len(&self) -> (n: usize)
        ensures
            n == self@.len(),
    {
        proof {
            use_type_invariant(self);
        }
        self.raw.len() - 1
    }

    /// The content.
    pub fn as_bytes(&self) -> (bytes: &[u8])
        ensures
            bytes@ == self@,
            !has_nul(bytes@),
    {
        proof {
            use_type_invariant(self);
        }
        let n = self.raw.len() - 1;
        vstd::slice::slice_subrange(self.raw.as_slice(), 0, n)
    }

    /// The content and its terminator.
    pub fn as_bytes_with_nul(&self) -> (bytes: &[u8])
        ensures
            bytes@ == self@.push(0u8),
            !has_nul(self@),
    {
        proof {
            use_type_invariant(self);
            assert(self.raw@ == self.raw@.drop_last().push(0u8));
        }
        self.raw.as_slice()
    }
}

} // verus!
