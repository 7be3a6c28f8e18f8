use css_linter::config::AliasEntry;
use css_linter::utils::{normalize_separators, process_relative_import, replace_aliases, should_skip_directory};

#[test]
fn relative_import_collapses_against_importer_directory() {
    let mut dest = String::from("../styles/button.module.css");
    process_relative_import("src/components/App.tsx", &mut dest);
    assert_eq!(dest, "src/styles/button.module.css");
}

#[test]
fn current_directory_segment_is_a_no_op() {
    let mut dest = String::from("./styles.module.css");
    process_relative_import("App.tsx", &mut dest);
    assert_eq!(dest, "styles.module.css");
}

#[test]
fn non_relative_path_is_returned_unchanged() {
    let mut dest = String::from("@styles/button.module.css");
    process_relative_import("src/App.tsx", &mut dest);
    assert_eq!(dest, "@styles/button.module.css");
}

#[test]
fn popping_past_the_root_is_guarded() {
    let mut dest = String::from("../../x.module.css");
    process_relative_import("App.tsx", &mut dest);
    assert_eq!(dest, "x.module.css");
}

#[test]
fn empty_importer_leaves_path_unchanged() {
    let mut dest = String::from("./x.module.css");
    process_relative_import("", &mut dest);
    assert_eq!(dest, "./x.module.css");
}

#[test]
fn alias_prefix_is_rewritten_to_first_candidate() {
    let aliases = vec![AliasEntry {
        pattern: String::from("@styles/*"),
        targets: vec![String::from("src/styles/*")],
    }];
    let mut path = String::from("@styles/button.module.css");
    replace_aliases(&mut path, &aliases);
    assert_eq!(path, "src/styles/button.module.css");
}

#[test]
fn alias_with_no_candidates_is_skipped() {
    let aliases = vec![AliasEntry {
        pattern: String::from("@styles/*"),
        targets: vec![],
    }];
    let mut path = String::from("@styles/button.module.css");
    replace_aliases(&mut path, &aliases);
    assert_eq!(path, "@styles/button.module.css");
}

#[test]
fn aliases_apply_in_table_order() {
    let aliases = vec![
        AliasEntry {
            pattern: String::from("@a/*"),
            targets: vec![String::from("one/*")],
        },
        AliasEntry {
            pattern: String::from("one/*"),
            targets: vec![String::from("two/*")],
        },
    ];
    let mut path = String::from("@a/x.module.css");
    replace_aliases(&mut path, &aliases);
    assert_eq!(path, "two/x.module.css");
}

#[test]
fn backslashes_normalize_to_forward_slashes() {
    assert_eq!(normalize_separators("src\\pages\\App.tsx"), "src/pages/App.tsx");
    assert_eq!(normalize_separators("plain/path.tsx"), "plain/path.tsx");
}

#[test]
fn resolved_import_separators_are_normalized() {
    let mut dest = String::from("./win\\button.module.css");
    process_relative_import("src/App.tsx", &mut dest);
    assert_eq!(dest, "src/win/button.module.css");
}

#[test]
fn hidden_and_excluded_directories_are_pruned() {
    let exclude = vec!["node_modules".to_string(), "dist".to_string()];
    assert!(should_skip_directory(".git", &exclude));
    assert!(should_skip_directory("node_modules", &exclude));
    assert!(should_skip_directory("dist", &exclude));
    assert!(!should_skip_directory("src", &exclude));
    assert!(!should_skip_directory("", &exclude));
}
