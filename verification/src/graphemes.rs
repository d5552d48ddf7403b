//! Text comparison by extended grapheme clusters.
//!
//! A text is split into its ordered sequence of extended grapheme
//! clusters — the splitting itself is the unicode_segmentation crate's
//! work — and the clusters are the elements that the matcher compares.

use vstd::prelude::*;

use crate::lcs::exec_eq;
use crate::matcher::lemma_match_count_congruent;
use crate::matcher::lemma_match_count_range;
use crate::matcher::match_count;
use crate::matcher::matching_items;

verus! {

/// One extended grapheme cluster of a text, owned as a string.  Two
/// clusters are equal exactly when they consist of the same characters.
pub struct Grapheme {
    pub text: String,
}

impl View for Grapheme {
    type V = Seq<char>;

    open spec fn view(&self) -> Seq<char> {
        self.text@
    }
}

impl PartialEq for Grapheme {
    fn eq(&self, other: &Grapheme) -> (r: bool) {
        self.text == other.text
    }
}

impl vstd::std_specs::cmp::PartialEqSpecImpl for Grapheme {
    open spec fn obeys_eq_spec() -> bool {
        true
    }

    open spec fn eq_spec(&self, other: &Grapheme) -> bool {
        self@ == other@
    }
}

impl Eq for Grapheme {

}

/// Plain equality of two sequences as the element relation for matching.
pub open spec fn same_seq<T>() -> spec_fn(Seq<T>, Seq<T>) -> bool {
    |a: Seq<T>, b: Seq<T>| a == b
}

/// The ordered extended grapheme clusters of a text, each as its
/// sequence of characters.
pub uninterp spec fn grapheme_clusters(s: Seq<char>) -> Seq<Seq<char>>;

/// Relies on unicode_segmentation's `UnicodeSegmentation::graphemes`:
/// it splits a string into its extended grapheme clusters, in order, and
/// the splitting depends on the string's characters alone; an empty
/// string has none.
#[verifier::external_body]
fn split_graphemes(s: &str) -> (r: Vec<Grapheme>)
    ensures
        r@.map_values(|g: Grapheme| g@) == grapheme_clusters(s@),
        s@.len() == 0 ==> r@.len() == 0,
{
    let mut v = Vec::new();
    for g in unicode_segmentation::UnicodeSegmentation::graphemes(s, true) {
        v.push(Grapheme { text: g.to_string() });
    }
    v
}

/// Splits both texts into extended grapheme clusters and returns the
/// Ratcliff-Obershelp matched count together with both cluster counts,
/// everything a caller needs to form the similarity ratio
/// `2 * matched / (count1 + count2)`.
pub fn grapheme_match_counts(s1: &str, s2: &str) -> (r: (usize, usize, usize))
    ensures
        r.0 == match_count(same_seq::<char>(), grapheme_clusters(s1@), grapheme_clusters(s2@)),
        r.1 == grapheme_clusters(s1@).len(),
        r.2 == grapheme_clusters(s2@).len(),
        r.0 <= r.1 && r.0 <= r.2,
        s1@.len() == 0 ==> r.1 == 0,
        s2@.len() == 0 ==> r.2 == 0,
{
    let g1 = split_graphemes(s1);
    let g2 = split_graphemes(s2);
    let matched = matching_items(g1.as_slice(), g2.as_slice());
    proof {
        lemma_match_count_congruent(
            exec_eq::<Grapheme>(),
            g1@,
            g2@,
            same_seq::<char>(),
            grapheme_clusters(s1@),
            grapheme_clusters(s2@),
        );
        lemma_match_count_range(
            same_seq::<char>(),
            grapheme_clusters(s1@),
            grapheme_clusters(s2@),
        );
    }
    (matched, g1.len(), g2.len())
}

} // verus!
