//! Validation of parsed style-sheet rules against catalogs of known
//! properties, at-rules and values: each rule goes through seven checks,
//! and every diagnostic they raise is reported.
pub mod error;
pub mod lint_rules;
pub mod number;
pub mod parse_css;
pub mod rules;
pub mod stylesheet;
pub mod text;

pub use error::{LintError, ParseFailure, PrettystrictError};
pub use lint_rules::{lint_rules, lint_stylesheet};
pub use number::Number;
pub use parse_css::{
    CssNode, Keyframe, collect_rules, extract_at_rules_simple, parse_css_fallback,
    parse_declaration_simple, recover_with_fallback,
};
pub use rules::check_property::{PropertyList, Property, Rule, check_at_rule, check_props};
pub use rules::check_value::{KeywordRule, Range, ValueList, ValueRule, check_value};
pub use rules::duplicate_declaration::{
    Location, check_order, duplicate_declaration, shorthand_detection,
};
pub use rules::unit_check::unit_check;
pub use stylesheet::{hex_color_text, parse_css, parse_css_default, read_property};
