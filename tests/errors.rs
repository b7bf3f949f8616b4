use prettystrict::{LintError, ParseFailure, PrettystrictError};

fn text(s: &str) -> String {
    s.to_string()
}

#[test]
fn every_error_kind_has_its_text() {
    let cases = vec![
        (PrettystrictError::UnexpectedToken(text("}")), "Unexpected token: }"),
        (PrettystrictError::EndOfFile, "Unexpected end of file"),
        (PrettystrictError::Custom(text("parse_css")), "Parse error: parse_css"),
        (PrettystrictError::UnknownProperty(text("colr")), "file error: colr"),
        (PrettystrictError::IoError(text("not found")), "file error: not found"),
        (PrettystrictError::JsonError(text("EOF at 1:1")), "json error: EOF at 1:1"),
        (PrettystrictError::UnknownValue(text("50em")), "file error: 50em"),
        (PrettystrictError::DuplicateProperty, "file error"),
        (PrettystrictError::NoUnitFound, "no units have been declared"),
        (PrettystrictError::WrongUnitDeclared, "wrong unit has been declared"),
        (PrettystrictError::ProperyOverride, "propery overridden "),
        (PrettystrictError::InvalidDeclaration, "invalid declaration"),
    ];
    for (kind, expected) in cases {
        assert_eq!(kind.to_string(), expected);
        let e = LintError::from(kind.clone());
        assert_eq!(e.message, expected);
        assert_eq!(e.kind, kind);
    }
}

#[test]
fn parse_failures_map_to_errors() {
    assert_eq!(PrettystrictError::from(ParseFailure::EndOfInput), PrettystrictError::EndOfFile);
    assert_eq!(
        PrettystrictError::from(ParseFailure::AtRuleBodyInvalid),
        PrettystrictError::Custom(text("invalid rule body"))
    );
    assert_eq!(
        PrettystrictError::from(ParseFailure::DeprecatedCssModulesValueRule),
        PrettystrictError::Custom(text("deprecated css-modules-value-rule"))
    );
    assert_eq!(
        PrettystrictError::from(ParseFailure::SelectorError),
        PrettystrictError::Custom(text("invalid selector"))
    );
    assert_eq!(
        PrettystrictError::from(ParseFailure::MaximumNestingDepth),
        PrettystrictError::Custom(text("maximum nesting depth"))
    );
}
