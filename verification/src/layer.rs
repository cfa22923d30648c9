//! What an adapter to the platform log is set up with: a domain and a tag.

use vstd::prelude::*;
use vstd::string::StringSliceAdditionalSpecFns;

use crate::cbytes::has_nul;
use crate::error::EncodingError;
use crate::level::{platform_level, Level};
use crate::ohos::{OHOSWriter, SinkState};
use crate::tag::{capped, CappedTag};

verus! {

/// A domain and a capped tag, as values.
pub struct LayerView {
    /// The domain that every line is logged under.
    pub domain: u16,
    /// The tag that every line is logged under.
    pub tag: Seq<u8>,
}

/// The settings of an adapter: the domain and the tag of every line that it
/// logs. The tag is capped once, when the layer is made, and lent to each
/// writer.
pub struct Layer {
    domain: u16,
    tag: CappedTag,
}

impl View for Layer {
    type V = LayerView;

    closed spec fn view(&self) -> LayerView {
        LayerView { domain: self.domain, tag: self.tag@ }
    }
}

impl Layer {
    /// A layer that logs under `domain` and the capped form of `tag`.
    ///
    /// Fails exactly where the bytes of `tag` that the capped form keeps
    /// hold a zero byte.
    pub fn new(domain: u16, tag: &str) -> (r: Result<Layer, EncodingError>)
        ensures
            r is Ok <==> !has_nul(capped(tag.spec_bytes())),
            r is Ok ==> r->Ok_0@ == (LayerView { domain, tag: capped(tag.spec_bytes()) }),
    {
        match CappedTag::new(tag.as_bytes()) {
            Ok(tag) => Ok(Layer { domain, tag }),
            Err(e) => Err(e),
        }
    }

    /// The domain that every line is logged under.
    pub fn domain(&self) -> (r: u16)
        ensures
            r == self@.domain,
    {
        self.domain
    }

    /// The tag that every line is logged under.
    pub fn tag(&self) -> (r: &CappedTag)
        ensures
            r@ == self@.tag,
    {
        &self.tag
    }

    /// A writer for events of severity `level`. Its lines carry this
    /// layer's domain and tag.
    pub fn writer(&self, level: &Level) -> (w: OHOSWriter<'_>)
        ensures
            w@.sink == (SinkState {
                level: platform_level(*level),
                domain: self@.domain,
                tag: self@.tag,
                pending: Seq::empty(),
            }),
            w@.buffered == Seq::<u8>::empty(),
    {
        OHOSWriter::new(level, self.domain, &self.tag)
    }
}

} // verus!
