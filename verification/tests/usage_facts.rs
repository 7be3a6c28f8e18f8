use css_linter::tsx_parser::{extract_default_css_imports, extract_used_classes, ImportFact, MemberAccess, UsedClassName};
use css_linter::used_css::{get_class_usages, is_same_target};

#[test]
fn only_default_module_css_imports_are_kept() {
    let imports = vec![
        ImportFact {
            source: "./a.module.css".to_string(),
            local: "a".to_string(),
            is_default: true,
        },
        ImportFact {
            source: "./plain.css".to_string(),
            local: "b".to_string(),
            is_default: true,
        },
        ImportFact {
            source: "./c.module.css".to_string(),
            local: "c".to_string(),
            is_default: false,
        },
    ];
    let r = extract_default_css_imports(&imports);
    assert_eq!(r.len(), 1);
    assert_eq!(r[0].0, "./a.module.css");
    assert_eq!(r[0].1, "a");
}

#[test]
fn suffix_match_is_exact_and_case_sensitive() {
    let imports = vec![ImportFact {
        source: "./a.Module.Css".to_string(),
        local: "a".to_string(),
        is_default: true,
    }];
    assert!(extract_default_css_imports(&imports).is_empty());
}

#[test]
fn accesses_on_the_binding_become_usage_symbols() {
    let accesses = vec![
        MemberAccess {
            object: "styles".to_string(),
            property: "btn".to_string(),
            line: 3,
            column: 5,
        },
        MemberAccess {
            object: "other".to_string(),
            property: "x".to_string(),
            line: 4,
            column: 0,
        },
        MemberAccess {
            object: "styles".to_string(),
            property: "icon".to_string(),
            line: 7,
            column: 2,
        },
    ];
    let r = extract_used_classes(&accesses, "styles", "src/App.tsx");
    assert_eq!(r.len(), 2);
    assert_eq!(r[0].class_name, "btn");
    assert_eq!(r[0].file_name, "src/App.tsx");
    assert_eq!(r[0].line, 3);
    // The position is taken directly from the reported source location.
    assert_eq!(r[0].column, 5);
    assert_eq!(r[1].class_name, "icon");
    assert_eq!(r[1].column, 2);
}

#[test]
fn binding_with_no_accesses_yields_nothing() {
    let accesses = vec![MemberAccess {
        object: "other".to_string(),
        property: "x".to_string(),
        line: 1,
        column: 0,
    }];
    assert!(extract_used_classes(&accesses, "styles", "App.tsx").is_empty());
}

#[test]
fn same_access_twice_yields_two_symbols() {
    let accesses = vec![
        MemberAccess {
            object: "s".to_string(),
            property: "dup".to_string(),
            line: 1,
            column: 0,
        },
        MemberAccess {
            object: "s".to_string(),
            property: "dup".to_string(),
            line: 2,
            column: 0,
        },
    ];
    let r = extract_used_classes(&accesses, "s", "App.tsx");
    assert_eq!(r.len(), 2);
}

#[test]
fn class_usage_lines_are_exact() {
    let usages = vec![
        UsedClassName {
            class_name: "btn".to_string(),
            file_name: "src/App.tsx".to_string(),
            line: 12,
            column: 11,
        },
        UsedClassName {
            class_name: "icon".to_string(),
            file_name: "src/App.tsx".to_string(),
            line: 14,
            column: 8,
        },
        UsedClassName {
            class_name: "btn".to_string(),
            file_name: "src/App.tsx".to_string(),
            line: 20,
            column: 3,
        },
    ];
    let lines = get_class_usages(&usages, "btn", "src/App.tsx");
    assert_eq!(
        lines,
        vec![
            "src/App.tsx:12:11:3".to_string(),
            "src/App.tsx:20:3:3".to_string(),
        ]
    );
}

#[test]
fn target_comparison_strips_relative_markers() {
    assert!(is_same_target("styles.module.css", "./styles.module.css"));
    assert!(is_same_target("styles.module.css", "styles.module.css"));
    assert!(!is_same_target("styles.module.css", "other.module.css"));
}
