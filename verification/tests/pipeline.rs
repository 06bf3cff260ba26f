use wildcard::{recompute, FlagSet, HighlightClass};

fn spans_of(r: &wildcard::ScanResult) -> Vec<(usize, usize)> {
    r.spans.iter().map(|m| (m.start, m.end)).collect()
}

fn classes_of(r: &wildcard::ScanResult) -> Vec<HighlightClass> {
    r.spans.iter().map(|m| m.highlight_class).collect()
}

#[test]
fn two_matches_with_alternating_classes() {
    let r = recompute("a+", FlagSet::baseline(), "aaa bb aa");
    assert_eq!(r.accepted_count, 2);
    assert_eq!(spans_of(&r), vec![(0, 3), (7, 9)]);
    assert_eq!(
        classes_of(&r),
        vec![HighlightClass::First, HighlightClass::Second]
    );
    assert_eq!(r.summary_text, "2 matches");
}

#[test]
fn empty_pattern_finds_nothing() {
    let r = recompute("", FlagSet::baseline(), "anything");
    assert_eq!(r.accepted_count, 0);
    assert!(r.spans.is_empty());
    assert_eq!(r.summary_text, "no matches");
}

#[test]
fn invalid_pattern_falls_back_silently() {
    let r = recompute("(", FlagSet::baseline(), "x");
    assert_eq!(r.accepted_count, 0);
    assert!(r.spans.is_empty());
    assert_eq!(r.summary_text, "no matches");
}

#[test]
fn multiline_flag_gates_line_anchors() {
    let off = recompute("^foo", FlagSet::baseline(), "bar\nfoo");
    assert_eq!(off.accepted_count, 0);
    assert_eq!(off.summary_text, "no matches");

    let mut flags = FlagSet::baseline();
    flags.multiline = true;
    let on = recompute("^foo", flags, "bar\nfoo");
    assert_eq!(on.accepted_count, 1);
    assert_eq!(spans_of(&on), vec![(4, 7)]);
    assert_eq!(on.summary_text, "1 match");
}

#[test]
fn zero_width_matches_are_excluded() {
    let r = recompute("a*", FlagSet::baseline(), "bbb");
    assert_eq!(r.accepted_count, 0);
    assert!(r.spans.is_empty());
    assert_eq!(r.summary_text, "no matches");
}

#[test]
fn zero_width_candidates_between_real_matches() {
    // `a*` on "baab": zero-width at 0, a real match, zero-width at the end.
    let r = recompute("a*", FlagSet::baseline(), "baab");
    assert_eq!(r.accepted_count, 1);
    assert_eq!(spans_of(&r), vec![(1, 3)]);
    assert_eq!(r.summary_text, "1 match");
}

#[test]
fn repeated_calls_agree() {
    let flags = FlagSet::baseline();
    let r1 = recompute("b+", flags, "abba bb");
    let r2 = recompute("b+", flags, "abba bb");
    assert_eq!(r1.accepted_count, r2.accepted_count);
    assert_eq!(spans_of(&r1), spans_of(&r2));
    assert_eq!(classes_of(&r1), classes_of(&r2));
    assert_eq!(r1.summary_text, r2.summary_text);
}

#[test]
fn offsets_are_codepoints_not_bytes() {
    // "é" takes two bytes; byte offsets would be (1, 5).
    let r = recompute("é+", FlagSet::baseline(), "xééy");
    assert_eq!(spans_of(&r), vec![(1, 3)]);
}

#[test]
fn offsets_with_astral_characters() {
    // "🦀" takes four bytes but is one codepoint.
    let r = recompute("🦀", FlagSet::baseline(), "a🦀b🦀");
    assert_eq!(spans_of(&r), vec![(1, 2), (3, 4)]);
    assert_eq!(
        classes_of(&r),
        vec![HighlightClass::First, HighlightClass::Second]
    );
}

#[test]
fn matches_stay_ordered_and_disjoint() {
    let r = recompute("aa", FlagSet::baseline(), "aaaa");
    assert_eq!(spans_of(&r), vec![(0, 2), (2, 4)]);
}

#[test]
fn classes_alternate_from_first() {
    let r = recompute("a", FlagSet::baseline(), "a a a a a");
    assert_eq!(r.accepted_count, 5);
    assert_eq!(
        classes_of(&r),
        vec![
            HighlightClass::First,
            HighlightClass::Second,
            HighlightClass::First,
            HighlightClass::Second,
            HighlightClass::First,
        ]
    );
    assert_eq!(r.summary_text, "5 matches");
}

#[test]
fn unicode_flag_changes_word_classes_alone() {
    let unicode_on = recompute(r"\w+", FlagSet::baseline(), "héllo");
    assert_eq!(spans_of(&unicode_on), vec![(0, 5)]);

    let mut ascii = FlagSet::baseline();
    ascii.unicode = false;
    let unicode_off = recompute(r"\w+", ascii, "héllo");
    assert_eq!(spans_of(&unicode_off), vec![(0, 1), (2, 5)]);
}

#[test]
fn case_insensitive_composes_with_unicode() {
    let mut ci = FlagSet::baseline();
    ci.case_insensitive = true;
    let r = recompute("A", ci, "a");
    assert_eq!(r.accepted_count, 1);

    let mut ci_ascii = ci;
    ci_ascii.unicode = false;
    let r2 = recompute("A", ci_ascii, "a");
    assert_eq!(r2.accepted_count, 1);

    let plain = recompute("A", FlagSet::baseline(), "a");
    assert_eq!(plain.accepted_count, 0);
}

#[test]
fn dot_matches_newline_flag() {
    let off = recompute("b.f", FlagSet::baseline(), "b\nf");
    assert_eq!(off.accepted_count, 0);

    let mut flags = FlagSet::baseline();
    flags.dot_matches_newline = true;
    let on = recompute("b.f", flags, "b\nf");
    assert_eq!(spans_of(&on), vec![(0, 3)]);
}

#[test]
fn ignore_whitespace_flag() {
    let mut flags = FlagSet::baseline();
    flags.ignore_whitespace = true;
    let r = recompute("a b", flags, "ab");
    assert_eq!(r.accepted_count, 1);

    let off = recompute("a b", FlagSet::baseline(), "ab");
    assert_eq!(off.accepted_count, 0);
}

#[test]
fn swap_greed_flag() {
    let r = recompute("a+", FlagSet::baseline(), "aaa");
    assert_eq!(spans_of(&r), vec![(0, 3)]);

    let mut lazy = FlagSet::baseline();
    lazy.swap_greed = true;
    let r2 = recompute("a+", lazy, "aaa");
    assert_eq!(spans_of(&r2), vec![(0, 1), (1, 2), (2, 3)]);
}

#[test]
fn valid_pattern_without_matches_looks_like_fallback() {
    let valid = recompute("z", FlagSet::baseline(), "aaa");
    let invalid = recompute("(", FlagSet::baseline(), "aaa");
    assert_eq!(valid.accepted_count, invalid.accepted_count);
    assert_eq!(valid.summary_text, invalid.summary_text);
    assert!(valid.spans.is_empty() && invalid.spans.is_empty());
}
