use wildcard::{assign_classes, format_summary, CompiledPattern, FlagSet, HighlightClass};

#[test]
fn compile_marks_invalid_patterns_as_fallback() {
    assert!(CompiledPattern::compile("(", FlagSet::baseline()).is_fallback());
    assert!(CompiledPattern::compile("[z-a]", FlagSet::baseline()).is_fallback());
    assert!(!CompiledPattern::compile("a+", FlagSet::baseline()).is_fallback());
    assert!(!CompiledPattern::compile("", FlagSet::baseline()).is_fallback());
}

#[test]
fn scan_yields_bare_codepoint_spans() {
    let cp = CompiledPattern::compile("é+", FlagSet::baseline());
    let spans = cp.scan("ééxé");
    assert_eq!(spans, vec![(0, 2), (3, 4)]);
}

#[test]
fn scan_of_fallback_is_empty() {
    let cp = CompiledPattern::compile("(", FlagSet::baseline());
    assert!(cp.scan("aaa").is_empty());
}

#[test]
fn assign_classes_alternates() {
    let bare = vec![(0usize, 1usize), (2, 3), (4, 6), (7, 9)];
    let marked = assign_classes(&bare);
    assert_eq!(marked.len(), 4);
    for (i, m) in marked.iter().enumerate() {
        assert_eq!((m.start, m.end), bare[i]);
        let expected = if i % 2 == 0 {
            HighlightClass::First
        } else {
            HighlightClass::Second
        };
        assert_eq!(m.highlight_class, expected);
    }
}

#[test]
fn summary_no_matches_cases() {
    assert_eq!(format_summary(0, false), "no matches");
    assert_eq!(format_summary(0, true), "no matches");
    assert_eq!(format_summary(3, true), "no matches");
}

#[test]
fn summary_singular_and_plural() {
    assert_eq!(format_summary(1, false), "1 match");
    assert_eq!(format_summary(2, false), "2 matches");
    assert_eq!(format_summary(5, false), "5 matches");
}

#[test]
fn summary_multi_digit_counts() {
    assert_eq!(format_summary(10, false), "10 matches");
    assert_eq!(format_summary(120, false), "120 matches");
    assert_eq!(format_summary(1009, false), "1009 matches");
}

#[test]
fn baseline_flags() {
    let f = FlagSet::baseline();
    assert!(!f.multiline);
    assert!(!f.case_insensitive);
    assert!(!f.ignore_whitespace);
    assert!(!f.dot_matches_newline);
    assert!(f.unicode);
    assert!(!f.swap_greed);
}
