//! Size-bounded logging for OpenHarmony's HiLog.
//!
//! A log tag is capped at 23 bytes and a message is split into lines of at
//! most 4000 bytes, so that the platform log never truncates what it is given.
//!
//! The library decides which lines are due; it makes no call to the platform
//! itself. A writer collects its lines, and whoever owns the writer takes
//! them out and logs them.

use vstd::prelude::*;
use vstd::string::StringSliceAdditionalSpecFns;

pub mod buffer;
pub mod cbytes;
pub mod error;
pub mod layer;
pub mod level;
pub mod ohos;
pub mod tag;

pub use error::EncodingError;
pub use layer::Layer;
pub use level::{Level, LogLevel};
pub use ohos::{LogLine, OHOSWriter};
pub use tag::CappedTag;

verus! {

/// Constructs a [`Layer`] that logs under `domain` and the capped form of
/// `tag`.
///
/// Fails exactly where the bytes of `tag` that the capped form keeps hold a
/// zero byte.
pub fn layer(domain: u16, tag: &str) -> (r: Result<Layer, EncodingError>)
    ensures
        r is Ok <==> !cbytes::has_nul(tag::capped(tag.spec_bytes())),
        r is Ok ==> r->Ok_0@ == (layer::LayerView {
            domain,
            tag: tag::capped(tag.spec_bytes()),
        }),
{
    Layer::new(domain, tag)
}

} // verus!
