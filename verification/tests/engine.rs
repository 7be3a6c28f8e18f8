use css_linter::config::AliasEntry;
use css_linter::css_parser::ClassName;
use css_linter::linter::{
    build_tables, compute_undefined, compute_unused, count_diagnostics, count_files,
    ComponentInput, CssFileInput, DefinedEntry, UsedEntry,
};
use css_linter::tsx_parser::{ImportFact, MemberAccess, UsedClassName};

fn defined(path: &str, classes: Vec<(&str, usize, usize)>) -> DefinedEntry {
    DefinedEntry {
        path: path.to_string(),
        classes: classes
            .into_iter()
            .map(|(n, l, c)| ClassName {
                class_name: n.to_string(),
                line_index: l,
                column_index: c,
            })
            .collect(),
    }
}

fn used(path: &str, classes: Vec<(&str, &str, usize, usize)>) -> UsedEntry {
    UsedEntry {
        path: path.to_string(),
        classes: classes
            .into_iter()
            .map(|(n, f, l, c)| UsedClassName {
                class_name: n.to_string(),
                file_name: f.to_string(),
                line: l,
                column: c,
            })
            .collect(),
    }
}

#[test]
fn unused_keeps_whole_set_when_nothing_imports_it() {
    let d = vec![defined(
        "styles.module.css",
        vec![("btn", 0, 0), ("icon", 1, 0)],
    )];
    let u: Vec<UsedEntry> = vec![];
    let r = compute_unused(&d, &u);
    assert_eq!(r.len(), 1);
    assert_eq!(r[0].path, "styles.module.css");
    assert_eq!(r[0].classes.len(), 2);
    assert_eq!(r[0].classes[0].class_name, "btn");
    assert_eq!(r[0].classes[1].class_name, "icon");
}

#[test]
fn one_usage_clears_every_definition_of_that_name() {
    let d = vec![defined(
        "styles.module.css",
        vec![("btn", 0, 0), ("btn", 5, 2), ("icon", 1, 0)],
    )];
    let u = vec![used(
        "styles.module.css",
        vec![("btn", "App.tsx", 3, 7)],
    )];
    let r = compute_unused(&d, &u);
    assert_eq!(r.len(), 1);
    assert_eq!(r[0].classes.len(), 1);
    assert_eq!(r[0].classes[0].class_name, "icon");
}

#[test]
fn entries_reduced_to_nothing_are_dropped() {
    let d = vec![defined("styles.module.css", vec![("btn", 0, 0)])];
    let u = vec![used(
        "styles.module.css",
        vec![("btn", "App.tsx", 3, 7)],
    )];
    assert!(compute_unused(&d, &u).is_empty());
}

#[test]
fn undefined_regroups_by_owning_file() {
    let d = vec![defined("a.module.css", vec![("known", 0, 0)])];
    let u = vec![
        used(
            "a.module.css",
            vec![("known", "One.tsx", 2, 1), ("ghost", "One.tsx", 4, 1)],
        ),
        used("b.module.css", vec![("other", "Two.tsx", 9, 3)]),
    ];
    let r = compute_undefined(&d, &u);
    assert_eq!(r.len(), 2);
    assert_eq!(r[0].path, "One.tsx");
    assert_eq!(r[0].classes.len(), 1);
    assert_eq!(r[0].classes[0].class_name, "ghost");
    assert_eq!(r[1].path, "Two.tsx");
    assert_eq!(r[1].classes[0].class_name, "other");
}

#[test]
fn reductions_commute() {
    let d = vec![
        defined("a.module.css", vec![("x", 0, 0), ("y", 1, 0)]),
        defined("b.module.css", vec![("z", 0, 0)]),
    ];
    let u = vec![
        used("a.module.css", vec![("x", "One.tsx", 1, 1), ("w", "One.tsx", 2, 2)]),
        used("c.module.css", vec![("q", "Two.tsx", 5, 5)]),
    ];
    let unused_first = compute_unused(&d, &u);
    let undefined_second = compute_undefined(&d, &u);
    let undefined_first = compute_undefined(&d, &u);
    let unused_second = compute_unused(&d, &u);
    assert_eq!(unused_first, unused_second);
    assert_eq!(undefined_first, undefined_second);
}

#[test]
fn round_trip_of_one_defined_and_used_class_is_clean() {
    let css = CssFileInput {
        path: "styles.module.css".to_string(),
        text: "\n\n\n.foo {}\n".to_string(),
    };
    let comp = ComponentInput {
        path: "App.tsx".to_string(),
        imports: vec![ImportFact {
            source: "./styles.module.css".to_string(),
            local: "styles".to_string(),
            is_default: true,
        }],
        accesses: vec![MemberAccess {
            object: "styles".to_string(),
            property: "foo".to_string(),
            line: 10,
            column: 4,
        }],
    };
    let aliases: Vec<AliasEntry> = vec![];
    let (d, u) = build_tables(&vec![css], &vec![comp], &aliases);
    assert_eq!(d.len(), 1);
    assert_eq!(d[0].classes[0].line_index, 3);
    assert_eq!(d[0].classes[0].column_index, 0);
    assert_eq!(u.len(), 1);
    assert_eq!(u[0].path, "styles.module.css");
    assert!(compute_unused(&d, &u).is_empty());
    assert!(compute_undefined(&d, &u).is_empty());
}

#[test]
fn access_on_import_defining_no_classes_is_undefined() {
    let css = CssFileInput {
        path: "styles.module.css".to_string(),
        text: String::new(),
    };
    let comp = ComponentInput {
        path: "App.tsx".to_string(),
        imports: vec![ImportFact {
            source: "./styles.module.css".to_string(),
            local: "styles".to_string(),
            is_default: true,
        }],
        accesses: vec![MemberAccess {
            object: "styles".to_string(),
            property: "missingClass".to_string(),
            line: 7,
            column: 0,
        }],
    };
    let (d, u) = build_tables(&vec![css], &vec![comp], &vec![]);
    let undef = compute_undefined(&d, &u);
    assert_eq!(undef.len(), 1);
    assert_eq!(undef[0].path, "App.tsx");
    assert_eq!(undef[0].classes.len(), 1);
    assert_eq!(undef[0].classes[0].class_name, "missingClass");
    // The position is the one the front-end reported, unchanged.
    assert_eq!(undef[0].classes[0].line, 7);
    assert_eq!(undef[0].classes[0].column, 0);
}

#[test]
fn directive_protected_class_is_not_reported_unused() {
    let css = CssFileInput {
        path: "styles.module.css".to_string(),
        text: "/* css-lint-disable-rule unused-class */\n.hidden {}\n".to_string(),
    };
    let (d, u) = build_tables(&vec![css], &vec![], &vec![]);
    assert!(compute_unused(&d, &u).is_empty());
}

#[test]
fn aliased_import_resolves_to_target_stylesheet() {
    let css = CssFileInput {
        path: "src/styles/button.module.css".to_string(),
        text: ".btn {}\n".to_string(),
    };
    let comp = ComponentInput {
        path: "src/pages/Page.tsx".to_string(),
        imports: vec![ImportFact {
            source: "@styles/button.module.css".to_string(),
            local: "styles".to_string(),
            is_default: true,
        }],
        accesses: vec![MemberAccess {
            object: "styles".to_string(),
            property: "btn".to_string(),
            line: 2,
            column: 11,
        }],
    };
    let aliases = vec![AliasEntry {
        pattern: "@styles/*".to_string(),
        targets: vec!["src/styles/*".to_string()],
    }];
    let (d, u) = build_tables(&vec![css], &vec![comp], &aliases);
    assert_eq!(u.len(), 1);
    assert_eq!(u[0].path, "src/styles/button.module.css");
    assert!(compute_unused(&d, &u).is_empty());
    assert!(compute_undefined(&d, &u).is_empty());
}

#[test]
fn counts_cover_both_tables() {
    let unused = vec![defined("a.module.css", vec![("x", 0, 0), ("y", 1, 0)])];
    let undefined = vec![used("One.tsx", vec![("w", "One.tsx", 2, 2)])];
    assert_eq!(count_diagnostics(&unused, &undefined), 3);
    assert_eq!(count_files(&unused, &undefined), 2);
    let none_d: Vec<DefinedEntry> = vec![];
    let none_u: Vec<UsedEntry> = vec![];
    assert_eq!(count_diagnostics(&none_d, &none_u), 0);
    assert_eq!(count_files(&none_d, &none_u), 0);
}
