use prettystrict::{
    KeywordRule, LintError, Location, Number, PrettystrictError, Property, PropertyList, Range,
    Rule, ValueList, ValueRule, check_at_rule, check_order, check_props, check_value,
    duplicate_declaration, lint_rules, lint_stylesheet, shorthand_detection, unit_check,
};

fn text(s: &str) -> String {
    s.to_string()
}

fn decl(name: &str, value: &str) -> Property {
    Property { name: text(name), value: text(value) }
}

fn rule(selector: &str, decls: &[(&str, &str)]) -> Rule {
    Rule {
        selector: text(selector),
        declaration: decls.iter().map(|(n, v)| decl(n, v)).collect(),
        at_rule: Vec::new(),
    }
}

fn num(s: &str) -> Number {
    Number::parse(s).unwrap()
}

fn props(names: &[&str], at_rules: &[&str]) -> PropertyList {
    PropertyList {
        properties: names.iter().map(|s| text(s)).collect(),
        at_rules: at_rules.iter().map(|s| text(s)).collect(),
    }
}

fn unit_range(units: &[&str], min: &str, max: &str) -> ValueRule {
    ValueRule::UnitRange {
        units: units.iter().map(|s| text(s)).collect(),
        range: Range { min: num(min), max: num(max) },
    }
}

fn allowed(values: &[&str]) -> ValueRule {
    ValueRule::AllowedValues { allowed: values.iter().map(|s| text(s)).collect() }
}

fn position_group(ignores: &[&str]) -> ValueRule {
    ValueRule::KeywordGroup {
        keywords: vec![
            (
                text("static"),
                KeywordRule {
                    allowed: None,
                    ignores: Some(ignores.iter().map(|s| text(s)).collect()),
                },
            ),
            (text("relative"), KeywordRule { allowed: None, ignores: None }),
        ],
    }
}

fn values(entries: Vec<(&str, ValueRule)>) -> ValueList {
    ValueList {
        properties: entries.into_iter().map(|(k, v)| (text(k), v)).collect(),
        shorthands: None,
    }
}

fn width_catalog() -> ValueList {
    values(vec![("width", unit_range(&["px", "%"], "0", "1000"))])
}

fn here() -> Location {
    Location { line: 1, column: 1 }
}

#[test]
fn unknown_property_once_per_declaration() {
    let known = props(&["color", "width"], &[]);
    let r = rule(".a", &[("color", "red"), ("colr", "red"), ("width", "1px"), ("hieght", "2px")]);
    let errors = check_props(&r, &known);
    assert_eq!(errors.len(), 2);
    assert_eq!(errors[0].property, "colr");
    assert_eq!(errors[0].message, "colr is unknown");
    assert_eq!(errors[0].selector, ".a");
    assert_eq!(errors[0].kind, PrettystrictError::UnknownProperty(text("colr")));
    assert_eq!(errors[1].property, "hieght");
    assert_eq!(errors[1].kind, PrettystrictError::UnknownProperty(text("hieght")));
}

#[test]
fn unknown_property_repeated_declaration_counts_twice() {
    let known = props(&["color"], &[]);
    let r = rule(".a", &[("colr", "red"), ("colr", "blue")]);
    assert_eq!(check_props(&r, &known).len(), 2);
}

#[test]
fn known_properties_raise_nothing() {
    let known = props(&["color", "width"], &[]);
    let r = rule(".a", &[("color", "red"), ("width", "1px")]);
    assert!(check_props(&r, &known).is_empty());
    assert!(check_props(&rule(".b", &[]), &known).is_empty());
}

#[test]
fn at_rules_are_compared_with_their_at_sign() {
    let known = props(&[], &["@media", "supports"]);
    let mut r = rule(".a", &[]);
    r.at_rule = vec![text("media"), text("@supports"), text("@page"), text("keyframes")];
    let errors = check_at_rule(&r, &known);
    assert_eq!(errors.len(), 2);
    assert_eq!(errors[0].property, "@page");
    assert_eq!(errors[0].message, "Unknown at-rule: @page");
    assert_eq!(errors[0].selector, "");
    assert_eq!(errors[0].kind, PrettystrictError::UnknownProperty(text("@page")));
    assert_eq!(errors[1].property, "@keyframes");
}

#[test]
fn duplicate_reported_once_on_second_declaration() {
    let r = rule(".a", &[("color", "red"), ("color", "blue")]);
    let errors = duplicate_declaration(&r, &here());
    assert_eq!(errors.len(), 1);
    assert_eq!(errors[0].property, "color");
    assert_eq!(errors[0].message, "<- duplicate property found.");
    assert_eq!(errors[0].kind, PrettystrictError::DuplicateProperty);
}

#[test]
fn duplicate_every_later_occurrence() {
    let r = rule(".a", &[("color", "red"), ("top", "0"), ("color", "red"), ("color", "red")]);
    assert_eq!(duplicate_declaration(&r, &here()).len(), 2);
    assert!(duplicate_declaration(&rule(".a", &[("color", "red"), ("top", "0")]), &here()).is_empty());
}

#[test]
fn width_fifty_px_passes() {
    let r = rule(".a", &[("width", "50px")]);
    assert!(check_value(&r, &width_catalog()).is_empty());
    assert!(unit_check(&r, &width_catalog()).is_empty());
}

#[test]
fn width_fifty_em_fails_on_unit() {
    let r = rule(".a", &[("width", "50em")]);
    let errors = check_value(&r, &width_catalog());
    assert_eq!(errors.len(), 1);
    assert_eq!(errors[0].kind, PrettystrictError::UnknownValue(text("50em")));
    assert_eq!(errors[0].message, "\u{2018}50em\u{2019} is not a valid unit/range for width");
    let units = unit_check(&r, &width_catalog());
    assert_eq!(units.len(), 1);
    assert_eq!(units[0].kind, PrettystrictError::WrongUnitDeclared);
    assert_eq!(units[0].message, "Unit 'em' is not allowed for 'width'");
}

#[test]
fn width_negative_fails_on_range() {
    let r = rule(".a", &[("width", "-5px")]);
    let errors = check_value(&r, &width_catalog());
    assert_eq!(errors.len(), 1);
    assert_eq!(errors[0].kind, PrettystrictError::UnknownValue(text("-5px")));
    assert!(unit_check(&r, &width_catalog()).is_empty());
}

#[test]
fn width_auto_only_value_check() {
    let r = rule(".a", &[("width", "auto")]);
    assert!(unit_check(&r, &width_catalog()).is_empty());
    let errors = check_value(&r, &width_catalog());
    assert_eq!(errors.len(), 1);
    assert_eq!(errors[0].kind, PrettystrictError::UnknownValue(text("auto")));
}

#[test]
fn width_range_bounds_inclusive() {
    let c = width_catalog();
    assert!(check_value(&rule(".a", &[("width", "0px")]), &c).is_empty());
    assert!(check_value(&rule(".a", &[("width", "1000%")]), &c).is_empty());
    assert!(check_value(&rule(".a", &[("width", "999.99px")]), &c).is_empty());
    assert!(check_value(&rule(".a", &[("width", ".5px")]), &c).is_empty());
    assert_eq!(check_value(&rule(".a", &[("width", "1000.001px")]), &c).len(), 1);
    assert_eq!(check_value(&rule(".a", &[("width", "1001px")]), &c).len(), 1);
    assert_eq!(check_value(&rule(".a", &[("width", "5.px")]), &c).len(), 1);
    assert_eq!(check_value(&rule(".a", &[("width", "50 px")]), &c).len(), 1);
    assert_eq!(check_value(&rule(".a", &[("width", "px")]), &c).len(), 1);
}

#[test]
fn fractional_range_bounds() {
    let c = values(vec![("opacity", unit_range(&["%"], "-0.5", "2.25"))]);
    assert!(check_value(&rule(".a", &[("opacity", "-0.5%")]), &c).is_empty());
    assert!(check_value(&rule(".a", &[("opacity", "2.250%")]), &c).is_empty());
    assert_eq!(check_value(&rule(".a", &[("opacity", "2.2501%")]), &c).len(), 1);
    assert_eq!(check_value(&rule(".a", &[("opacity", "-0.51%")]), &c).len(), 1);
}

#[test]
fn allowed_values_exact_match() {
    let c = values(vec![("display", allowed(&["block", "flex"]))]);
    assert!(check_value(&rule(".a", &[("display", "flex")]), &c).is_empty());
    let errors = check_value(&rule(".a", &[("display", "Flex")]), &c);
    assert_eq!(errors.len(), 1);
    assert_eq!(errors[0].message, "\u{2018}Flex\u{2019} is not an allowed value for display");
    assert_eq!(errors[0].kind, PrettystrictError::UnknownValue(text("Flex")));
}

#[test]
fn value_without_rule_reported() {
    let errors = check_value(&rule(".a", &[("margin", "1px")]), &width_catalog());
    assert_eq!(errors.len(), 1);
    assert_eq!(errors[0].message, "No known values defined for 'margin'");
    assert_eq!(errors[0].kind, PrettystrictError::UnknownValue(text("1px")));
}

#[test]
fn invalid_position_keyword() {
    let c = values(vec![("position", position_group(&["top"]))]);
    let errors = check_value(&rule(".a", &[("position", "floating")]), &c);
    assert_eq!(errors.len(), 1);
    assert_eq!(errors[0].message, "Invalid value for position: 'floating'");
    assert_eq!(errors[0].property, "position");
}

#[test]
fn static_position_flags_ignored_sibling() {
    let c = values(vec![
        ("position", position_group(&["top"])),
        ("top", unit_range(&["px"], "0", "1000")),
    ]);
    let errors = check_value(&rule(".a", &[("position", "static"), ("top", "10px")]), &c);
    assert_eq!(errors.len(), 1);
    assert_eq!(errors[0].property, "top");
    assert_eq!(errors[0].message, "'top' is not valid for static.");
    assert_eq!(errors[0].kind, PrettystrictError::UnknownValue(text("10px")));
}

#[test]
fn static_position_alone_is_fine() {
    let c = values(vec![
        ("position", position_group(&["top"])),
        ("top", unit_range(&["px"], "0", "1000")),
    ]);
    assert!(check_value(&rule(".a", &[("position", "static")]), &c).is_empty());
    assert!(check_value(&rule(".a", &[("position", "relative"), ("top", "10px")]), &c).is_empty());
}

#[test]
fn unit_on_keyword_only_property() {
    let c = values(vec![
        ("display", allowed(&["block"])),
        ("position", position_group(&[])),
    ]);
    let errors = unit_check(&rule(".a", &[("display", "10px"), ("position", "3em")]), &c);
    assert_eq!(errors.len(), 1);
    assert_eq!(errors[0].message, "Unexpected unit 'px' for keyword-only property 'display'");
    assert_eq!(errors[0].kind, PrettystrictError::WrongUnitDeclared);
}

#[test]
fn unit_on_unknown_property() {
    let errors = unit_check(&rule(".a", &[("margin", " 10 PX ")]), &width_catalog());
    assert_eq!(errors.len(), 1);
    assert_eq!(errors[0].message, "Unknown property 'margin' \u{2014} no unit validation rule found");
    assert_eq!(errors[0].kind, PrettystrictError::UnknownProperty(text("margin")));
}

#[test]
fn unit_read_after_space_and_trim() {
    let errors = unit_check(&rule(".a", &[("width", "  12.5  em ")]), &width_catalog());
    assert_eq!(errors.len(), 1);
    assert_eq!(errors[0].message, "Unit 'em' is not allowed for 'width'");
    assert!(unit_check(&rule(".a", &[("width", "-3%")]), &width_catalog()).is_empty());
    assert!(unit_check(&rule(".a", &[("width", "#fff")]), &width_catalog()).is_empty());
}

fn background_shorthands() -> ValueList {
    ValueList {
        properties: Vec::new(),
        shorthands: Some(vec![(
            text("background"),
            vec![text("background-color"), text("background-image")],
        )]),
    }
}

#[test]
fn shorthand_after_longhand() {
    let r = rule(".a", &[("background-color", "red"), ("background", "blue")]);
    let errors = shorthand_detection(&r, &background_shorthands());
    assert_eq!(errors.len(), 1);
    assert_eq!(errors[0].property, "background");
    assert_eq!(
        errors[0].message,
        "\u{2018}background\u{2019} overrides previously defined longhand \u{2018}background-color\u{2019}"
    );
    assert_eq!(errors[0].kind, PrettystrictError::ProperyOverride);
}

#[test]
fn longhand_after_shorthand() {
    let r = rule(".a", &[("background", "blue"), ("background-color", "red")]);
    let errors = shorthand_detection(&r, &background_shorthands());
    assert_eq!(errors.len(), 1);
    assert_eq!(errors[0].property, "background-color");
    assert_eq!(
        errors[0].message,
        "\u{2018}background-color\u{2019} overrides previously defined shorthand \u{2018}background\u{2019}"
    );
}

#[test]
fn shorthand_after_two_longhands() {
    let r = rule(
        ".a",
        &[("background-image", "none"), ("background-color", "red"), ("background", "blue")],
    );
    let errors = shorthand_detection(&r, &background_shorthands());
    assert_eq!(errors.len(), 2);
    assert!(errors[0].message.ends_with("\u{2018}background-color\u{2019}"));
    assert!(errors[1].message.ends_with("\u{2018}background-image\u{2019}"));
    assert!(shorthand_detection(&r, &width_catalog()).is_empty());
}

#[test]
fn order_violation_reported_at_display() {
    let errors = check_order(&rule(".a", &[("position", "static"), ("display", "block")]));
    assert_eq!(errors.len(), 1);
    assert_eq!(errors[0].property, "display");
    assert_eq!(errors[0].message, "invalid property order found.");
    assert_eq!(errors[0].kind, PrettystrictError::ProperyOverride);
}

#[test]
fn order_followed_reports_nothing() {
    let r = rule(".a", &[("display", "block"), ("position", "static"), ("color", "red")]);
    assert!(check_order(&r).is_empty());
    let r = rule(".a", &[("display", "block"), ("margin", "0"), ("display", "flex")]);
    assert!(check_order(&r).is_empty());
}

#[test]
fn order_compares_with_highest_seen() {
    let r = rule(".a", &[("color", "red"), ("display", "block"), ("position", "static")]);
    let errors = check_order(&r);
    assert_eq!(errors.len(), 2);
    assert_eq!(errors[0].property, "display");
    assert_eq!(errors[1].property, "position");
}

#[test]
fn lint_rules_runs_every_check_in_order() {
    let known = props(&["width", "color"], &["@media"]);
    let mut c = width_catalog();
    c.shorthands = None;
    let mut r = rule(".a", &[("width", "50em"), ("colr", "red"), ("width", "5px")]);
    r.at_rule = vec![text("@page")];
    let errors: Vec<LintError> = lint_rules(&r, &known, &c, &here());
    let kinds: Vec<PrettystrictError> = errors.iter().map(|e| e.kind.clone()).collect();
    assert_eq!(
        kinds,
        vec![
            PrettystrictError::UnknownProperty(text("colr")),
            PrettystrictError::UnknownProperty(text("@page")),
            PrettystrictError::UnknownValue(text("50em")),
            PrettystrictError::UnknownValue(text("red")),
            PrettystrictError::WrongUnitDeclared,
            PrettystrictError::DuplicateProperty,
        ]
    );
}

#[test]
fn malformed_catalog_stops_the_run() {
    let rules = vec![rule(".a", &[("colr", "red")])];
    let failure = LintError::from(PrettystrictError::JsonError(text("expected value")));
    let r = lint_stylesheet(&rules, Err(failure.clone()), Ok(width_catalog()), &here());
    assert_eq!(r, Err(failure.clone()));
    let r = lint_stylesheet(&rules, Ok(props(&[], &[])), Err(failure.clone()), &here());
    assert_eq!(r, Err(failure));
}

#[test]
fn stylesheet_collects_every_rule() {
    let rules = vec![rule(".a", &[("colr", "red")]), rule(".b", &[("width", "1px")])];
    let all = lint_stylesheet(&rules, Ok(props(&["width"], &[])), Ok(width_catalog()), &here())
        .unwrap();
    assert_eq!(all.len(), 2);
    assert_eq!(all[0].selector, ".a");
    assert_eq!(all[0].kind, PrettystrictError::UnknownProperty(text("colr")));
    assert_eq!(all[1].kind, PrettystrictError::UnknownValue(text("red")));
}

#[test]
fn error_text_and_conversion() {
    assert_eq!(PrettystrictError::JsonError(text("eof")).to_string(), "json error: eof");
    assert_eq!(PrettystrictError::ProperyOverride.to_string(), "propery overridden ");
    assert_eq!(PrettystrictError::UnknownValue(text("x")).to_string(), "file error: x");
    let e = LintError::from(PrettystrictError::EndOfFile);
    assert_eq!(e.message, "Unexpected end of file");
    assert_eq!(e.selector, "");
    assert_eq!(e.property, "");
}
