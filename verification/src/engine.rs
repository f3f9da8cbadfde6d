//! The capabilities the parser expects from a serialization format.

use vstd::prelude::*;

verus! {

/// A format engine: decodes the raw text of a metadata block into a
/// structured value of the engine's choosing. An implementation returns
/// `None` when the text is not valid for its format; the parser turns that
/// into an absent metadata field rather than an error.
pub trait Engine {
    /// The structured value the engine produces.
    type Value;

    /// Decode raw metadata text, or report failure as `None`.
    fn decode(text: &str) -> Option<Self::Value>;
}

/// A typed shape that can be produced, fallibly, from a structured value.
/// Implemented by callers that want metadata delivered as their own type.
pub trait FromValue<V>: Sized {
    /// Convert the structured value, or report failure as `None`.
    fn from_value(value: V) -> Option<Self>;
}

} // verus!
