use css_linter::css_class::get_class_body;

#[test]
fn finds_the_rule_body_for_a_class() {
    let code = ".btn { color: red; }\n.icon { width: 1px; }\n";
    let r = get_class_body(code, "btn");
    assert_eq!(r, Some(".btn { color: red; }".to_string()));
}

#[test]
fn finds_a_later_rule() {
    let code = ".btn { color: red; }\n.icon { width: 1px; }\n";
    let r = get_class_body(code, "icon");
    assert_eq!(r, Some(".icon { width: 1px; }".to_string()));
}

#[test]
fn prefix_of_another_class_does_not_match() {
    // `.btn-big` must not be returned when asking for `.btn`.
    let code = ".btn-big { color: blue; }\n";
    assert_eq!(get_class_body(code, "btn"), None);
}

#[test]
fn missing_class_yields_none() {
    assert_eq!(get_class_body(".btn { color: red; }\n", "missing"), None);
}

#[test]
fn metacharacters_in_the_name_are_escaped() {
    // Without escaping, `b.n` would match `.btn` as a regex; with escaping
    // it cannot match anything here.
    let code = ".btn { color: red; }\n";
    assert_eq!(get_class_body(code, "b.n"), None);
}
