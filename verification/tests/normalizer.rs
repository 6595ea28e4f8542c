//! Tests for the normalizer: standardization, width folding, parenthesis
//! stripping and numeric range expansion.

use bom_recon::normalize::expand_ranges;
use bom_recon::normalize::fullwidth_to_halfwidth;
use bom_recon::normalize::remove_parentheses;
use bom_recon::normalize::standardize_string;
use bom_recon::inference::normalize_token;
use bom_recon::text::trim_string;

#[test]
fn test_standardize_string() {
    assert_eq!(standardize_string("ABC123"), "ABC123");
    assert_eq!(standardize_string("ＡＢＣ１２３"), "ABC123");
    assert_eq!(standardize_string("abc\n123"), "ABC123");
    assert_eq!(standardize_string("A B C"), "ABC");
}

#[test]
fn bom_processor_test_standardize_string() {
    assert_eq!(standardize_string("ABC123"), "ABC123");
    assert_eq!(standardize_string("ＡＢＣ１２３"), "ABC123");
    assert_eq!(standardize_string("abc\n123"), "ABC123");
    assert_eq!(standardize_string("A B C"), "ABC");
}

#[test]
fn standardize_is_idempotent_on_samples() {
    let samples = vec![
        "ＡＢＣ１２３",
        "abc\r\ndef",
        "  spaced  out  ",
        "混在ｱｲｳ ｅｆｇ 123",
        "",
        "(a)-(b)",
    ];
    for s in samples {
        let once = standardize_string(s);
        let twice = standardize_string(&once);
        assert_eq!(once, twice);
    }
}

#[test]
fn standardize_keeps_unmapped_characters() {
    assert_eq!(standardize_string("部品-001"), "部品-001");
    assert_eq!(standardize_string("x\ty"), "X\tY");
}

#[test]
fn expand_ranges_basic() {
    assert_eq!(
        expand_ranges("C1-C3"),
        Some(vec!["C1".to_string(), "C2".to_string(), "C3".to_string()])
    );
}

#[test]
fn expand_ranges_rejects_reversed_and_equal() {
    assert_eq!(expand_ranges("C10-C9"), None);
    assert_eq!(expand_ranges("C5-C5"), None);
}

#[test]
fn expand_ranges_rejects_non_ranges() {
    assert_eq!(expand_ranges("ABC"), None);
    assert_eq!(expand_ranges("C1-"), None);
    assert_eq!(expand_ranges("-C3"), None);
    assert_eq!(expand_ranges("C-D"), None);
}

#[test]
fn expand_ranges_span_bound() {
    // a span of exactly 100 expands; anything wider does not
    let ok = expand_ranges("R1-R101").expect("span of 100 expands");
    assert_eq!(ok.len(), 101);
    assert_eq!(ok[0], "R1");
    assert_eq!(ok[100], "R101");
    assert_eq!(expand_ranges("R1-R102"), None);
}

#[test]
fn expand_ranges_keeps_left_prefix() {
    assert_eq!(
        expand_ranges("AB12-XY14"),
        Some(vec!["AB12".to_string(), "AB13".to_string(), "AB14".to_string()])
    );
}

#[test]
fn fullwidth_folding_only_folds_width() {
    assert_eq!(fullwidth_to_halfwidth("ａｂｃ　ＸＹ１"), "abc　XY1");
    assert_eq!(fullwidth_to_halfwidth("plain"), "plain");
}

#[test]
fn remove_parentheses_strips_both() {
    assert_eq!(remove_parentheses("(a)b(c)"), "abc");
    assert_eq!(remove_parentheses("no parens"), "no parens");
}

#[test]
fn normalize_token_lowers_and_strips() {
    assert_eq!(normalize_token(" Part Number "), "partnumber");
    assert_eq!(normalize_token("品　番"), "品番");
}

#[test]
fn trim_string_trims_ideographic_space() {
    assert_eq!(trim_string("　品番　"), "品番");
    assert_eq!(trim_string("  x  "), "x");
    assert_eq!(trim_string(" \t\r\n "), "");
}
