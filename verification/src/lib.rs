//! A lazy, zero-copy substring splitter.
//!
//! [`split::StrSplit`] walks a haystack string and yields, one step at a
//! time, the substrings that lie between consecutive occurrences of a
//! delimiter.  Every yielded piece is a sub-view of the original haystack:
//! no character data is copied.
//!
//! The intended result of a full iteration is pinned down by the spec
//! function [`split::split_spec`]; the laws that the splitter obeys
//! (reconstruction of the haystack, pass-through for an empty delimiter,
//! emptiness for an empty haystack) are proved in [`laws`].

pub mod laws;
pub mod search;
pub mod split;
