use chapter_titles::cleaner::dynamic_clean_title;
use chapter_titles::frequency::build_token_frequency;
use chapter_titles::frequency::FrequencyTable;
use chapter_titles::tokenizer::split_title_tokens;
use chapter_titles::tokenizer::standardize_brackets;
use chapter_titles::tokenizer::TitleToken;

/// Tests that `split_title_tokens` correctly identifies both bracketed and
/// non-bracketed tokens.
#[test]
fn test_split_title_tokens() {
    let title = "Chapter 1 [Intro] (Overview)";
    let tokens = split_title_tokens(title);
    assert!(!tokens.is_empty());
    let bracketed: Vec<&TitleToken> = tokens.iter().filter(|t| t.is_bracketed).collect();
    assert!(!bracketed.is_empty());
}

/// Tests that `dynamic_clean_title` properly cleans a title by removing
/// common tokens.
#[test]
fn test_dynamic_clean_title() {
    let titles = vec![
        "Chapter 1 [Intro]".to_string(),
        "Chapter 2 [Intro]".to_string(),
        "Chapter 3 [Intro]".to_string(),
    ];
    let freq = build_token_frequency(&titles);
    let cleaned = dynamic_clean_title("Chapter 1 [Intro]", &freq, titles.len(), 4, 5);
    assert!(!cleaned.is_empty());
}

/// A recurring "Chapter" prefix is dropped and the bracketed annotation
/// stops the stripping and is kept.
#[test]
fn test_recurring_prefix_dropped_bracket_kept() {
    let titles = vec![
        "Chapter 1 [Intro]".to_string(),
        "Chapter 2 [Intro]".to_string(),
        "Chapter 3 [Intro]".to_string(),
    ];
    let freq = build_token_frequency(&titles);
    let cleaned = dynamic_clean_title("Chapter 1 [Intro]", &freq, 3, 4, 5);
    assert_eq!(cleaned, "[Intro]");
}

/// A token under the threshold is never dropped: "Chapter" occurs in two of
/// three titles (ratio 2/3 < 4/5), so it survives; the digit is a separator.
#[test]
fn test_infrequent_prefix_kept() {
    let titles = vec![
        "Prologue".to_string(),
        "Chapter 1".to_string(),
        "Chapter 2".to_string(),
    ];
    let freq = build_token_frequency(&titles);
    let cleaned = dynamic_clean_title("Chapter 1", &freq, 3, 4, 5);
    assert_eq!(cleaned, "Chapter");
}

/// ASCII parentheses are standardized to square brackets before scanning.
#[test]
fn test_parentheses_standardized() {
    let tokens = split_title_tokens("(Special) Bonus");
    assert_eq!(tokens.len(), 2);
    assert!(tokens[0].is_bracketed);
    assert_eq!(tokens[0].text, "[Special]");
    assert!(!tokens[1].is_bracketed);
    assert_eq!(tokens[1].text, "Bonus");
}

/// A ratio exactly equal to the threshold drops the token (the comparison is
/// inclusive): "Chapter" has ratio 2/4, the threshold is 1/2.
#[test]
fn test_ratio_equal_to_threshold_drops() {
    let titles = vec![
        "Chapter One".to_string(),
        "Chapter Two".to_string(),
        "Three".to_string(),
        "Four".to_string(),
    ];
    let freq = build_token_frequency(&titles);
    let cleaned = dynamic_clean_title("Chapter One", &freq, 4, 1, 2);
    assert_eq!(cleaned, "One");
}

/// The empty title tokenizes to no tokens and cleans to the empty string.
#[test]
fn test_empty_title() {
    assert!(split_title_tokens("").is_empty());
    let titles = vec!["".to_string()];
    let freq = build_token_frequency(&titles);
    let cleaned = dynamic_clean_title("", &freq, 1, 4, 5);
    assert_eq!(cleaned, "");
}

/// Bracket standardization handles full-width glyphs and is idempotent.
#[test]
fn test_standardize_brackets() {
    assert_eq!(standardize_brackets("【A】（B）(C)"), "[A][B][C]");
    let once = standardize_brackets("（Special） Bonus");
    let twice = standardize_brackets(&once);
    assert_eq!(once, twice);
    assert_eq!(once, "[Special] Bonus");
}

/// An unterminated bracket is skipped without a token and without blocking
/// the rest of the scan.
#[test]
fn test_unmatched_bracket_skipped() {
    let tokens = split_title_tokens("Lone [ bracket");
    assert_eq!(tokens.len(), 2);
    assert!(!tokens[0].is_bracketed);
    assert_eq!(tokens[0].text, "Lone");
    assert!(!tokens[1].is_bracketed);
    assert_eq!(tokens[1].text, "bracket");
}

/// Digits, whitespace, hyphens and colons outside brackets are separators
/// only and are never emitted.
#[test]
fn test_separators_dropped() {
    assert!(split_title_tokens("12: - 34 ：").is_empty());
    let tokens = split_title_tokens("01 - Intro: Part 2");
    assert_eq!(tokens.len(), 2);
    assert_eq!(tokens[0].text, "Intro");
    assert_eq!(tokens[1].text, "Part");

    let inside = split_title_tokens("[Disc 1: A-B] Tail");
    assert_eq!(inside.len(), 2);
    assert!(inside[0].is_bracketed);
    assert_eq!(inside[0].text, "[Disc 1: A-B]");
    assert_eq!(inside[1].text, "Tail");
}

/// A title whose every plain token meets the threshold strips to the empty
/// string, which is a valid output.
#[test]
fn test_full_strip_is_empty() {
    let titles = vec!["Chapter 1".to_string(), "Chapter 2".to_string()];
    let freq = build_token_frequency(&titles);
    let cleaned = dynamic_clean_title("Chapter 1", &freq, 2, 1, 2);
    assert_eq!(cleaned, "");
}

/// The frequency table counts each occurrence of a plain token's exact text,
/// never counts bracketed tokens, and answers zero for an absent text.
#[test]
fn test_token_frequency_counts() {
    let titles = vec![
        "Chapter 1 [Intro]".to_string(),
        "Chapter 2 Chapter".to_string(),
        "Intro".to_string(),
    ];
    let freq = build_token_frequency(&titles);
    assert_eq!(freq.get_count(&"Chapter".to_string()), 3);
    assert_eq!(freq.get_count(&"Intro".to_string()), 1);
    assert_eq!(freq.get_count(&"[Intro]".to_string()), 0);
    assert_eq!(freq.get_count(&"Missing".to_string()), 0);
}

/// An empty table holds no counts.
#[test]
fn test_empty_table() {
    let freq = FrequencyTable::new();
    assert_eq!(freq.get_count(&"Chapter".to_string()), 0);
}

/// Once stripping has stopped, later tokens are kept even when their own
/// frequency meets the threshold.
#[test]
fn test_prefix_only_stripping() {
    let titles = vec![
        "Series One Series".to_string(),
        "Series Two Series".to_string(),
        "Series Three Series".to_string(),
    ];
    let freq = build_token_frequency(&titles);
    // "Series" has ratio 6/3 >= 4/5 and is stripped; "One" ends the
    // stripping, so the trailing "Series" survives.
    let cleaned = dynamic_clean_title("Series One Series", &freq, 3, 4, 5);
    assert_eq!(cleaned, "OneSeries");
}

/// Raising the threshold can only keep more: at 2/3 the prefix is dropped,
/// at 1/1 (ratio 2/3 < 1) it is kept.
#[test]
fn test_threshold_monotonicity() {
    let titles = vec![
        "Chapter One".to_string(),
        "Chapter Two".to_string(),
        "Intermission".to_string(),
    ];
    let freq = build_token_frequency(&titles);
    let low = dynamic_clean_title("Chapter One", &freq, 3, 2, 3);
    let high = dynamic_clean_title("Chapter One", &freq, 3, 1, 1);
    assert_eq!(low, "One");
    assert_eq!(high, "ChapterOne");
}
