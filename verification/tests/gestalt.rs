use gestalt_ratio::grapheme_match_counts;
use gestalt_ratio::longest_common_subseq_idxs;
use gestalt_ratio::matching_items;

/// The similarity ratio of two texts compared grapheme by grapheme.
fn ratio(s1: &str, s2: &str) -> f64 {
    let (matched, n1, n2) = grapheme_match_counts(s1, s2);
    if n1 + n2 == 0 {
        0.0
    } else {
        (2.0 * matched as f64) / ((n1 + n2) as f64)
    }
}

/// The similarity ratio of two sequences.
fn ratio_seq<T: Eq>(s1: &[T], s2: &[T]) -> f64 {
    if s1.len() + s2.len() == 0 {
        0.0
    } else {
        (2.0 * matching_items(s1, s2) as f64) / ((s1.len() + s2.len()) as f64)
    }
}

fn chars_of(s: &str) -> Vec<char> {
    s.chars().collect()
}

#[test]
fn wikipedia_example() {
    let score = ratio("Wikimedia", "Wikimania");
    assert!(score > 0.7777, "{}", score);
    assert!(score < 0.7778, "{}", score);
}

#[test]
fn stack_overflow_example() {
    let s1 = "Ebojfm Mzpm";
    let s2 = "Ebfo ef Mfpo";
    let score1 = ratio(s1, s2);
    let score2 = ratio(s2, s1);
    assert_eq!(score1, 0.6086956521739131, "{}", score1);
    assert_eq!(score2, 0.5217391304347826, "{}", score2);
}

#[test]
fn unicode_example() {
    let s1 = "x\u{b2} + y\u{b2}";
    let s2 = "y\u{b2} + z\u{b2}";
    let score = ratio(s1, s2);
    assert_eq!(score, 0.7142857142857143);
}

#[test]
fn sequence_scores_match_the_character_scores() {
    let s1 = chars_of("Ebojfm Mzpm");
    let s2 = chars_of("Ebfo ef Mfpo");
    assert_eq!(matching_items(&s1, &s2), 7);
    assert_eq!(matching_items(&s2, &s1), 6);
    assert_eq!(ratio_seq(&s1, &s2), 0.6086956521739131);
    assert_eq!(ratio_seq(&s2, &s1), 0.5217391304347826);
}

#[test]
fn asymmetry_when_lengths_differ() {
    let s1 = chars_of("Ebojfm Mzpm");
    let s2 = chars_of("Ebfo ef Mfpo");
    assert!(ratio_seq(&s1, &s2) != ratio_seq(&s2, &s1));
}

#[test]
fn empty_inputs_give_exactly_zero() {
    let none: Vec<u32> = Vec::new();
    assert_eq!(matching_items(&none, &none), 0);
    let score = ratio_seq(&none, &none);
    assert!(!score.is_nan());
    assert_eq!(score, 0.0);
    let text_score = ratio("", "");
    assert!(!text_score.is_nan());
    assert_eq!(text_score, 0.0);
}

#[test]
fn identity_gives_exactly_one() {
    let s = chars_of("gestalt pattern");
    assert_eq!(matching_items(&s, &s), s.len());
    assert_eq!(ratio_seq(&s, &s), 1.0);
    assert_eq!(ratio("Wikimedia", "Wikimedia"), 1.0);
}

#[test]
fn disjoint_inputs_give_exactly_zero() {
    let s1: Vec<u32> = vec![1, 2, 3, 4];
    let s2: Vec<u32> = vec![5, 6, 7];
    assert_eq!(matching_items(&s1, &s2), 0);
    assert_eq!(ratio_seq(&s1, &s2), 0.0);
    assert_eq!(ratio("abc", "xyz"), 0.0);
}

#[test]
fn scores_stay_in_range() {
    let pairs = [
        ("Wikimedia", "Wikimania"),
        ("Ebojfm Mzpm", "Ebfo ef Mfpo"),
        ("", "abc"),
        ("abc", ""),
        ("a", "a"),
        ("ab", "ba"),
    ];
    for (s1, s2) in pairs {
        let score = ratio(s1, s2);
        assert!(0.0 <= score && score <= 1.0, "{} {} {}", s1, s2, score);
    }
}

#[test]
fn repeated_calls_are_bit_identical() {
    let first = ratio("Wikimedia", "Wikimania");
    let second = ratio("Wikimedia", "Wikimania");
    assert_eq!(first.to_bits(), second.to_bits());
    let s1 = chars_of("ab ba");
    let s2 = chars_of("ba ab");
    assert_eq!(ratio_seq(&s1, &s2).to_bits(), ratio_seq(&s1, &s2).to_bits());
}

#[test]
fn locator_finds_the_longest_run() {
    let s1: Vec<u32> = vec![1, 2, 3, 4];
    let s2: Vec<u32> = vec![9, 2, 3, 9];
    assert_eq!(longest_common_subseq_idxs(&s1, &s2), ((1, 3), (1, 3)));
}

#[test]
fn locator_breaks_ties_in_row_major_order() {
    let s1: Vec<u32> = vec![1, 2];
    let s2: Vec<u32> = vec![2, 1];
    // Both elements give a run of length one; the run ending first in
    // row-major end-position order is element 1 of s1 against element 2
    // of s2.
    assert_eq!(longest_common_subseq_idxs(&s1, &s2), ((0, 1), (1, 2)));
}

#[test]
fn locator_reports_no_match_at_the_ends() {
    let s1: Vec<u32> = vec![1, 2];
    let s2: Vec<u32> = vec![3, 4, 5];
    assert_eq!(longest_common_subseq_idxs(&s1, &s2), ((2, 2), (3, 3)));
    let none: Vec<u32> = Vec::new();
    assert_eq!(longest_common_subseq_idxs(&none, &s2), ((0, 0), (3, 3)));
}

#[test]
fn graphemes_are_compared_as_units() {
    // "a" followed by a combining acute accent is one grapheme cluster,
    // not the letter "a"; nothing matches the bare letter.
    let (matched, n1, n2) = grapheme_match_counts("a\u{301}", "a");
    assert_eq!((matched, n1, n2), (0, 1, 1));
    assert_eq!(ratio("a\u{301}", "a"), 0.0);
}

#[test]
fn matched_count_and_cluster_counts() {
    let (matched, n1, n2) = grapheme_match_counts("Wikimedia", "Wikimania");
    assert_eq!((n1, n2), (9, 9));
    assert_eq!(matched, 7);
}
