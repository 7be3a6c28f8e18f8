use css_linter::css_parser::{extract_classes, ClassName};

fn names(mut v: Vec<ClassName>) -> Vec<(String, usize, usize)> {
    let mut out: Vec<(String, usize, usize)> = v
        .drain(..)
        .map(|c| (c.class_name, c.line_index, c.column_index))
        .collect();
    out.sort();
    out
}

#[test]
fn extracts_simple_classes_with_positions() {
    let r = extract_classes(".btn { color: red; }\n.icon {}\n");
    assert_eq!(
        names(r),
        vec![
            ("btn".to_string(), 0, 0),
            ("icon".to_string(), 1, 0),
        ]
    );
}

#[test]
fn extraction_is_idempotent() {
    let text = ".a {}\n  .b {}\n/* c */ .d {}\n";
    let first = extract_classes(text);
    let second = extract_classes(text);
    assert_eq!(first, second);
}

#[test]
fn empty_text_yields_no_classes() {
    assert!(extract_classes("").is_empty());
}

#[test]
fn digit_initial_names_are_never_reported() {
    assert!(extract_classes(".9foo {}\n").is_empty());
    let r = extract_classes(".btn.9x {}\n");
    assert_eq!(names(r), vec![("btn".to_string(), 0, 0)]);
}

#[test]
fn leading_whitespace_becomes_column_offset() {
    let r = extract_classes("  .pad {}\n");
    assert_eq!(names(r), vec![("pad".to_string(), 0, 2)]);
}

#[test]
fn chained_selectors_yield_every_class() {
    let r = extract_classes(".a.b {}\n");
    assert_eq!(
        names(r),
        vec![("a".to_string(), 0, 0), ("b".to_string(), 0, 2)]
    );
}

#[test]
fn duplicate_name_on_two_lines_is_two_symbols() {
    let r = extract_classes(".x {}\n.x {}\n");
    assert_eq!(
        names(r),
        vec![("x".to_string(), 0, 0), ("x".to_string(), 1, 0)]
    );
}

#[test]
fn comment_on_line_is_stripped_before_scanning() {
    let r = extract_classes("/* note */ .real {}\n");
    // The comment is removed before tokenizing, so the column counts the
    // cleaned text.
    assert_eq!(names(r), vec![("real".to_string(), 0, 1)]);
}

#[test]
fn class_inside_comment_is_not_reported() {
    assert!(extract_classes("/* .ghost {} */\n").is_empty());
}

#[test]
fn comment_continues_across_lines() {
    let r = extract_classes(".a {} /* open\nstill closed */ .b {}\n");
    assert_eq!(
        names(r),
        vec![("a".to_string(), 0, 0), ("b".to_string(), 1, 1)]
    );
}

#[test]
fn forbidden_characters_exclude_the_line() {
    assert!(extract_classes(".a[href] {}\n").is_empty());
    assert!(extract_classes(".a { background: url(x.png) }\n").is_empty());
    assert!(extract_classes("content: \".fake\";\n").is_empty());
}

#[test]
fn line_without_dot_is_skipped() {
    assert!(extract_classes("div { margin: 0 }\n").is_empty());
}

#[test]
fn disable_directive_suppresses_directive_line_and_next() {
    let r = extract_classes("/* css-lint-disable-rule unused-class */\n.a {}\n.b {}\n");
    assert_eq!(names(r), vec![("b".to_string(), 2, 0)]);
}

#[test]
fn disable_directive_suppresses_whatever_follows() {
    // The suppressed line's content does not matter.
    let r = extract_classes("/* css-lint-disable-rule unused-class */\n.x.y.z {}\n");
    assert!(r.is_empty());
}

#[test]
fn indented_disable_directive_also_counts() {
    let r = extract_classes("   /* css-lint-disable-rule unused-class */\n.gone {}\n.kept {}\n");
    assert_eq!(names(r), vec![("kept".to_string(), 2, 0)]);
}

#[test]
fn unrelated_directive_comment_does_not_suppress() {
    let r = extract_classes("/* css-lint-disable-rule other-rule */\n.kept {}\n");
    assert_eq!(names(r), vec![("kept".to_string(), 1, 0)]);
}

#[test]
fn underscore_and_hyphen_extend_names() {
    let r = extract_classes(".my-class_1 {}\n");
    assert_eq!(names(r), vec![("my-class_1".to_string(), 0, 0)]);
}
