//! Ratcliff-Obershelp (Gestalt Pattern Matching) sequence similarity.
//!
//! The library finds one longest common contiguous run of two sequences
//! with a deterministic tie-break, recursively chains such runs to count
//! the total number of matched elements, and exposes the counts that a
//! caller needs to form the similarity ratio
//! `2 * matched / (len1 + len2)`.
//!
//! Text is compared grapheme cluster by grapheme cluster; the splitting
//! into extended grapheme clusters is delegated to the
//! unicode_segmentation crate.

pub mod lcs;
pub mod matcher;
pub mod graphemes;

pub use crate::graphemes::grapheme_match_counts;
pub use crate::lcs::longest_common_subseq_idxs;
pub use crate::matcher::matching_items;
