//! A linter for CSS-module stylesheets and the components that import them:
//! it extracts the class names a stylesheet defines and the class names a
//! component uses, joins the two over canonical stylesheet paths, and
//! reports classes that are defined but unused and used but undefined.
pub mod config;
pub mod css_class;
pub mod css_parser;
pub mod linter;
pub mod report;
pub mod text;
pub mod tsx_parser;
pub mod used_css;
pub mod utils;
