use css_linter::css_parser::ClassName;
use css_linter::linter::{DefinedEntry, UsedEntry};
use css_linter::report::{render_minified, render_results, sort_defined_classes};
use css_linter::tsx_parser::UsedClassName;

fn defined(path: &str, classes: Vec<(&str, usize, usize)>) -> DefinedEntry {
    DefinedEntry {
        path: path.to_string(),
        classes: classes
            .into_iter()
            .map(|(n, l, c)| ClassName {
                class_name: n.to_string(),
                line_index: l,
                column_index: c,
            })
            .collect(),
    }
}

fn used(path: &str, classes: Vec<(&str, &str, usize, usize)>) -> UsedEntry {
    UsedEntry {
        path: path.to_string(),
        classes: classes
            .into_iter()
            .map(|(n, f, l, c)| UsedClassName {
                class_name: n.to_string(),
                file_name: f.to_string(),
                line: l,
                column: c,
            })
            .collect(),
    }
}

#[test]
fn minified_lines_are_exact() {
    let unused = vec![defined("styles.module.css", vec![("btn", 0, 0), ("icon", 1, 0)])];
    let undefined = vec![used("App.tsx", vec![("ghost", "App.tsx", 12, 7)])];
    let r = render_minified(&unused, &undefined);
    assert_eq!(
        r,
        vec![
            "styles.module.css:1:1:3:\"btn\": Unused class found.".to_string(),
            "styles.module.css:2:1:4:\"icon\": Unused class found.".to_string(),
            "App.tsx:12:8:5:\"ghost\": Undefined class was used.".to_string(),
        ]
    );
}

#[test]
fn minified_lines_come_in_position_order() {
    let unused = vec![defined(
        "s.module.css",
        vec![("late", 9, 4), ("early", 0, 2), ("mid", 9, 1)],
    )];
    let r = render_minified(&unused, &vec![]);
    assert_eq!(
        r,
        vec![
            "s.module.css:1:3:5:\"early\": Unused class found.".to_string(),
            "s.module.css:10:2:3:\"mid\": Unused class found.".to_string(),
            "s.module.css:10:5:4:\"late\": Unused class found.".to_string(),
        ]
    );
}

#[test]
fn human_report_has_headers_entries_blank_lines_and_summary() {
    let unused = vec![defined("styles.module.css", vec![("btn", 0, 0)])];
    let undefined = vec![used("App.tsx", vec![("ghost", "App.tsx", 12, 7)])];
    let r = render_results(&unused, &undefined);
    assert_eq!(
        r,
        vec![
            "styles.module.css".to_string(),
            "  1:1  Warn: Unused class `btn` found.".to_string(),
            String::new(),
            "App.tsx".to_string(),
            "  12:8  Warn: Undefined class `ghost` was used.".to_string(),
            String::new(),
            "Found 2 warnings in 2 files".to_string(),
        ]
    );
}

#[test]
fn clean_run_reports_success() {
    let unused: Vec<DefinedEntry> = vec![];
    let undefined: Vec<UsedEntry> = vec![];
    let r = render_results(&unused, &undefined);
    assert_eq!(r, vec!["No CSS lint warnings found".to_string()]);
}

#[test]
fn sorting_orders_by_line_then_column() {
    let v = vec![
        ClassName { class_name: "c".to_string(), line_index: 2, column_index: 0 },
        ClassName { class_name: "a".to_string(), line_index: 0, column_index: 5 },
        ClassName { class_name: "b".to_string(), line_index: 0, column_index: 1 },
    ];
    let sorted = sort_defined_classes(&v);
    let order: Vec<String> = sorted.into_iter().map(|c| c.class_name).collect();
    assert_eq!(order, vec!["b".to_string(), "a".to_string(), "c".to_string()]);
}
