use prettystrict::{PrettystrictError, hex_color_text, parse_css, parse_css_default, read_property};

#[test]
fn default_sheet_parsed_in_full() {
    let rules = parse_css_default().unwrap();
    assert_eq!(rules.len(), 2);
    assert_eq!(rules[0].selector, ".foo");
    let names: Vec<&str> = rules[0].declaration.iter().map(|d| d.name.as_str()).collect();
    assert_eq!(names, vec!["color", "font-size"]);
    assert_eq!(rules[0].declaration[0].value, "#ff0000");
    assert_eq!(rules[0].declaration[1].value, "16px");
    assert!(rules[0].at_rule.is_empty());
    assert_eq!(rules[1].selector, ".bar");
    assert!(rules[1].declaration.is_empty());
    assert_eq!(rules[1].at_rule.len(), 1);
    assert!(rules[1].at_rule[0].starts_with("@media "));
}

#[test]
fn nested_at_rules_and_font_face() {
    let css = "@supports (display: grid) { @media print { .a { width: 10px; color: #00ff00 } } }\n\
               @font-face { font-family: x }\n\
               @keyframes spin { from { opacity: 0 } }";
    let rules = parse_css(css).unwrap();
    assert_eq!(rules.len(), 3);
    assert_eq!(rules[0].selector, ".a");
    assert_eq!(rules[0].at_rule.len(), 2);
    assert!(rules[0].at_rule[0].starts_with("@supports "));
    assert!(rules[0].at_rule[1].starts_with("@media "));
    assert_eq!(rules[0].declaration[0].name, "width");
    assert_eq!(rules[0].declaration[0].value, "10px");
    assert_eq!(rules[0].declaration[1].value, "#00ff00");
    assert_eq!(rules[1].selector, "");
    assert_eq!(rules[1].at_rule, vec!["@font-face".to_string()]);
    assert_eq!(rules[1].declaration[0].name, "font-face-property");
    assert_eq!(rules[2].selector, "from");
    assert_eq!(rules[2].at_rule.len(), 1);
    assert!(rules[2].at_rule[0].starts_with("@keyframes"));
    assert_eq!(rules[2].declaration[0].name, "opacity");
}

#[test]
fn unread_properties_left_out() {
    let rules = parse_css(".a { background: blue; top: 0; width: 1px }").unwrap();
    assert_eq!(rules[0].declaration.len(), 1);
    assert_eq!(rules[0].declaration[0].name, "width");
}

#[test]
fn rejected_sheet_gives_parse_error() {
    let e = parse_css(".a { color: red; } }").unwrap_err();
    assert_eq!(e.kind, PrettystrictError::Custom("parse_css".to_string()));
    assert!(e.message.starts_with("Failed to parse CSS: "));
    assert_eq!(e.selector, "");
}

#[test]
fn hex_colors_and_read_properties() {
    assert_eq!(hex_color_text(255, 0, 171), "#ff00ab");
    assert_eq!(hex_color_text(0, 16, 9), "#001009");
    assert!(read_property("z-index"));
    assert!(read_property("text-decoration"));
    assert!(!read_property("background"));
    assert!(!read_property("Color"));
}
