//! The parse results handed back to callers.

use vstd::prelude::*;

verus! {

/// Result of a parse: the decoded metadata value (when a non-empty metadata
/// block was found and decoded), the body content, the optional excerpt, the
/// verbatim input, and the raw text of the metadata block.
pub struct ParsedEntity<V> {
    pub data: Option<V>,
    pub content: String,
    pub excerpt: Option<String>,
    pub orig: String,
    pub matter: String,
}

/// Like [`ParsedEntity`], but with the metadata already converted into a
/// caller-chosen shape; produced only when that conversion succeeded.
pub struct ParsedEntityStruct<D> {
    pub data: D,
    pub content: String,
    pub excerpt: Option<String>,
    pub orig: String,
    pub matter: String,
}

/// The characters of an optional string, for stating contracts about
/// optional fields.
pub open spec fn opt_view(o: Option<String>) -> Option<Seq<char>> {
    match o {
        Some(s) => Some(s@),
        None => None,
    }
}

} // verus!
