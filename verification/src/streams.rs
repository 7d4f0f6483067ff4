//! A minimal abstraction for immutable token streams: advancing returns the
//! rest of the stream beside the item, leaving the original untouched.

use vstd::prelude::*;

verus! {

/// An immutable forward stream.
pub trait Stream {
    type Item: PartialEq + core::fmt::Debug;

    /// The rest of the stream and the next item, or `None` at the end.
    fn next(&self) -> Option<(&Self, &Self::Item)>;
}

} // verus!
