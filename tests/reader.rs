use prettystrict::{
    CssNode, Keyframe, Property, collect_rules, extract_at_rules_simple,
    parse_css_fallback, parse_declaration_simple, recover_with_fallback,
};

fn p(name: &str, value: &str) -> Property {
    Property { name: name.to_string(), value: value.to_string() }
}

#[test]
fn declaration_split_at_first_colon() {
    assert_eq!(parse_declaration_simple("  color : red ;; "), Some(p("color", "red ")));
    assert_eq!(
        parse_declaration_simple("background: url(a:b);"),
        Some(p("background", "url(a:b)"))
    );
    assert_eq!(parse_declaration_simple("margin: 0 ; ;"), Some(p("margin", "0 ; ")));
    assert_eq!(parse_declaration_simple("no colon here"), None);
    assert_eq!(parse_declaration_simple(":"), Some(p("", "")));
}

#[test]
fn at_rule_lines_trimmed() {
    let css = "a {}\n  @media print {\r\n@import x;\n  not @here\n";
    assert_eq!(
        extract_at_rules_simple(css),
        vec!["@media print {".to_string(), "@import x;".to_string()]
    );
    assert!(extract_at_rules_simple("").is_empty());
}

#[test]
fn fallback_reads_blocks() {
    let css = ".a {\n  color: red;\n  width: 10px;\n}\n\n.b {\n  top: 0\n}\n";
    let rules = parse_css_fallback(css).unwrap();
    assert_eq!(rules.len(), 2);
    assert_eq!(rules[0].selector, ".a");
    assert_eq!(rules[0].declaration, vec![p("color", "red"), p("width", "10px")]);
    assert!(rules[0].at_rule.is_empty());
    assert_eq!(rules[1].selector, ".b");
    assert_eq!(rules[1].declaration, vec![p("top", "0")]);
}

#[test]
fn fallback_keeps_unclosed_rule_out() {
    let rules = parse_css_fallback(".a {\n color: red;\n").unwrap();
    assert!(rules.is_empty());
}

#[test]
fn recovery_keeps_parsed_rules() {
    let css = ".x {\n a: b;\n}\n";
    let kept = recover_with_fallback(Ok(Vec::new()), css).unwrap();
    assert!(kept.is_empty());
    let failed = prettystrict::LintError::from(prettystrict::PrettystrictError::EndOfFile);
    let read = recover_with_fallback(Err(failed), css).unwrap();
    assert_eq!(read.len(), 1);
    assert_eq!(read[0].declaration, vec![p("a", "b")]);
}

#[test]
fn collect_rules_tracks_enclosing_at_rules() {
    let sheet = vec![
        CssNode::Style { selector: ".a".to_string(), declarations: vec![p("color", "red")] },
        CssNode::Media {
            query: "print".to_string(),
            rules: vec![
                CssNode::Supports {
                    condition: "(display: grid)".to_string(),
                    rules: vec![CssNode::Style {
                        selector: ".b".to_string(),
                        declarations: Vec::new(),
                    }],
                },
                CssNode::Other,
                CssNode::Style { selector: ".c".to_string(), declarations: Vec::new() },
            ],
        },
        CssNode::Keyframes {
            text: "@keyframes spin { }".to_string(),
            frames: vec![Keyframe { selector: "from".to_string(), declarations: Vec::new() }],
        },
        CssNode::FontFace { declarations: vec![p("font-face-property", "x")] },
    ];
    let rules = collect_rules(&sheet);
    assert_eq!(rules.len(), 5);
    assert!(rules[0].at_rule.is_empty());
    assert_eq!(rules[1].selector, ".b");
    assert_eq!(
        rules[1].at_rule,
        vec!["@media print".to_string(), "@supports (display: grid)".to_string()]
    );
    assert_eq!(rules[2].at_rule, vec!["@media print".to_string()]);
    assert_eq!(rules[3].selector, "from");
    assert_eq!(rules[3].at_rule, vec!["@keyframes spin { }".to_string()]);
    assert_eq!(rules[4].selector, "");
    assert_eq!(rules[4].at_rule, vec!["@font-face".to_string()]);
}
