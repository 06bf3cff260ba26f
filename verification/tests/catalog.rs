use wildcard::{parse_examples, ExampleData};

#[test]
fn example_data_holds_its_parts() {
    let e = ExampleData::new("Words", "find words", r"\w+", "some words");
    assert_eq!(e.title(), "Words");
    assert_eq!(e.subtitle(), "find words");
    assert_eq!(e.regex(), r"\w+");
    assert_eq!(e.example(), "some words");
}

#[test]
fn example_data_default_is_placeholder() {
    let e = ExampleData::default();
    assert_eq!(e.title(), "Invalid title");
    assert_eq!(e.subtitle(), "");
    assert_eq!(e.regex(), "");
    assert_eq!(e.example(), "");
}

#[test]
fn parse_single_entry() {
    let v = parse_examples("Title\nSub\na+\naaa").unwrap();
    assert_eq!(v.len(), 1);
    assert_eq!(v[0].title(), "Title");
    assert_eq!(v[0].subtitle(), "Sub");
    assert_eq!(v[0].regex(), "a+");
    assert_eq!(v[0].example(), "aaa");
}

#[test]
fn parse_two_entries_with_trailing_newline() {
    let text = "T1\nS1\nR1\nE1\n\nT2\nS2\nR2\nE2\n";
    let v = parse_examples(text).unwrap();
    assert_eq!(v.len(), 2);
    assert_eq!(v[0].title(), "T1");
    assert_eq!(v[1].title(), "T2");
    assert_eq!(v[1].example(), "E2");
}

#[test]
fn parse_ignores_extra_lines_in_a_group() {
    let v = parse_examples("T\nS\nR\nE\nextra\nmore").unwrap();
    assert_eq!(v.len(), 1);
    assert_eq!(v[0].example(), "E");
}

#[test]
fn parse_strips_carriage_returns() {
    let v = parse_examples("T\r\nS\r\nR\r\nE\r\n").unwrap();
    assert_eq!(v.len(), 1);
    assert_eq!(v[0].title(), "T");
    assert_eq!(v[0].example(), "E");
}

#[test]
fn parse_rejects_short_group() {
    assert!(parse_examples("T\nS\nR").is_none());
}

#[test]
fn parse_rejects_empty_text() {
    assert!(parse_examples("").is_none());
}

#[test]
fn parse_rejects_doubled_blank_line() {
    assert!(parse_examples("T\nS\nR\nE\n\n\nT2\nS2\nR2\nE2").is_none());
}
