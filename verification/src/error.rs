//! Structured parse and stream failures surfaced by the codec.

use vstd::prelude::*;

use crate::types::BoxType;

verus! {

/// A typed failure result. Every error is propagated to the immediate
/// caller; no layer swallows one silently, and a failed parse returns no
/// partial object.
#[derive(Clone, Copy, Debug, PartialEq, Eq, Structural)]
pub enum Error {
    /// Fewer bytes were available than a box header requires.
    TruncatedHeader,
    /// A mandatory child of the given type was absent after a full scan.
    BoxNotFound(BoxType),
    /// A declared size is inconsistent with the enclosing bounds: a child
    /// extends past its parent's end, declares fewer bytes than its own
    /// header occupies (a nested zero-size child falls here), or a size
    /// field does not fit 64-bit stream arithmetic.
    SizeMismatch,
    /// The underlying stream could not supply or accept the requested
    /// bytes: a payload read or a seek reached past the end of the data.
    IOError,
}

} // verus!
