//! The log tag, capped to the length the platform log accepts.

use vstd::prelude::*;

use crate::cbytes::{has_nul, CBytes};
use crate::error::EncodingError;

verus! {

/// The most bytes a tag may have.
pub const LOGGING_TAG_MAX_LEN: usize = 23;

/// How many bytes of a tag that is too long are kept: 21, which leaves room
/// for the two bytes of the marker.
pub const TAG_KEPT_LEN: usize = 21;

/// The byte that marks a shortened tag, written twice at its end: `.`.
pub const TAG_ELLIPSIS_BYTE: u8 = 0x2e;

/// The marker that ends a shortened tag: `..`.
pub open spec fn ellipsis() -> Seq<u8> {
    seq![TAG_ELLIPSIS_BYTE, TAG_ELLIPSIS_BYTE]
}

/// The first bytes of `tag`, as many as a shortened tag keeps.
pub open spec fn kept(tag: Seq<u8>) -> Seq<u8> {
    tag.take(TAG_KEPT_LEN as int)
}

/// The tag that stands for `tag`: `tag` itself where it fits, else its
/// first 21 bytes and the marker `..`.
pub open spec fn capped(tag: Seq<u8>) -> Seq<u8> {
    if tag.len() <= LOGGING_TAG_MAX_LEN {
        tag
    } else {
        kept(tag) + ellipsis()
    }
}

/// A tag that fits is its own capped form. The capped form of a longer one
/// has exactly 23 bytes: the first 21 of the tag, then `..`.
pub proof fn lemma_capped_len(tag: Seq<u8>)
    ensures
        capped(tag).len() <= LOGGING_TAG_MAX_LEN,
        tag.len() <= LOGGING_TAG_MAX_LEN ==> capped(tag) == tag,
        tag.len() > LOGGING_TAG_MAX_LEN ==> {
            &&& capped(tag).len() == LOGGING_TAG_MAX_LEN
            &&& kept(capped(tag)) == kept(tag)
            &&& capped(tag).skip(TAG_KEPT_LEN as int) == ellipsis()
        },
{
    if tag.len() > LOGGING_TAG_MAX_LEN {
        assert(kept(capped(tag)) =~= kept(tag));
        assert(capped(tag).skip(TAG_KEPT_LEN as int) =~= ellipsis());
    }
}

/// A capped tag holds a zero byte exactly where the part of `tag` that it
/// keeps holds one: all of a tag that fits, the first 21 bytes of a longer
/// one.
pub proof fn lemma_capped_nul(tag: Seq<u8>)
    ensures
        tag.len() <= LOGGING_TAG_MAX_LEN ==> (has_nul(capped(tag)) <==> has_nul(tag)),
        tag.len() > LOGGING_TAG_MAX_LEN ==> (has_nul(capped(tag)) <==> has_nul(kept(tag))),
{
    if tag.len() > LOGGING_TAG_MAX_LEN {
        let head = kept(tag);
        let whole = capped(tag);
        if has_nul(head) {
            let i = choose|i: int| 0 <= i < head.len() && head[i] == 0u8;
            assert(whole[i] == 0u8);
        }
        if has_nul(whole) {
            let i = choose|i: int| 0 <= i < whole.len() && whole[i] == 0u8;
            assert(whole[TAG_KEPT_LEN as int] == TAG_ELLIPSIS_BYTE);
            assert(whole[TAG_KEPT_LEN + 1] == TAG_ELLIPSIS_BYTE);
            assert(head[i] == 0u8);
        }
    }
}

/// A tag of at most 23 bytes, none of them zero, kept nul-terminated.
pub struct CappedTag {
    text: CBytes,
}

impl View for CappedTag {
    type V = Seq<u8>;

    /// The tag's bytes, without the terminator.
    closed spec fn view(&self) -> Seq<u8> {
        self.text@
    }
}

impl CappedTag {
    #[verifier::type_invariant]
    spec fn inv(&self) -> bool {
        self.text@.len() <= LOGGING_TAG_MAX_LEN
    }

    /// Caps `tag` and terminates it.
    ///
    /// A tag of at most 23 bytes is kept as it is. A longer one is cut to its
    /// first 21 bytes, followed by `..`. Fails exactly where the bytes that
    /// are kept hold a zero byte.
    pub fn new(tag: &[u8]) -> (r: Result<CappedTag, EncodingError>)
        ensures
            r is Ok <==> !has_nul(capped(tag@)),
            r is Ok ==> r->Ok_0@ == capped(tag@),
            r is Err ==> r == Err::<CappedTag, EncodingError>(EncodingError),
            tag@.len() <= LOGGING_TAG_MAX_LEN && !has_nul(tag@) ==> r is Ok && r->Ok_0@ == tag@,
            tag@.len() > LOGGING_TAG_MAX_LEN && !has_nul(kept(tag@)) ==> {
                &&& r is Ok
                &&& r->Ok_0@.len() == LOGGING_TAG_MAX_LEN
                &&& kept(r->Ok_0@) == kept(tag@)
                &&& r->Ok_0@.skip(TAG_KEPT_LEN as int) == ellipsis()
            },
            tag@.len() <= LOGGING_TAG_MAX_LEN && has_nul(tag@) ==> r is Err,
            tag@.len() > LOGGING_TAG_MAX_LEN && has_nul(kept(tag@)) ==> r is Err,
    {
        proof {
            lemma_capped_len(tag@);
            lemma_capped_nul(tag@);
        }
        let mut bytes: Vec<u8> = Vec::new();
        if tag.len() > LOGGING_TAG_MAX_LEN {
            bytes.extend_from_slice(vstd::slice::slice_subrange(tag, 0, TAG_KEPT_LEN));
            bytes.push(TAG_ELLIPSIS_BYTE);
            bytes.push(TAG_ELLIPSIS_BYTE);
        } else {
            bytes.extend_from_slice(tag);
        }
        assert(bytes@ =~= capped(tag@));
        match CBytes::new(bytes) {
            Ok(text) => Ok(CappedTag { text }),
            Err(e) => Err(e),
        }
    }

    /// The number of bytes in the tag.
    pub fn len(&self) -> (n: usize)
        ensures
            n == self@.len(),
            n <= LOGGING_TAG_MAX_LEN,
    {
        proof {
            use_type_invariant(self);
        }
        self.text.len()
    }

    /// The tag's bytes.
    pub fn as_bytes(&self) -> (bytes: &[u8])
        ensures
            bytes@ == self@,
            bytes@.len() <= LOGGING_TAG_MAX_LEN,
            !has_nul(bytes@),
    {
        proof {
            use_type_invariant(self);
        }
        self.text.as_bytes()
    }

    /// The tag's bytes and the zero byte that ends them.
    pub fn as_bytes_with_nul(&self) -> (bytes: &[u8])
        ensures
            bytes@ == self@.push(0u8),
            self@.len() <= LOGGING_TAG_MAX_LEN,
            !has_nul(self@),
    {
        proof {
            use_type_invariant(self);
        }
        self.text.as_bytes_with_nul()
    }
}

} // verus!
