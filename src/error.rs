//! The error taxonomy and the diagnostic record.
use vstd::prelude::*;

verus! {

/// Why a rule, a file or a catalog was rejected.
#[derive(Clone, Debug, PartialEq, Eq)]
pub enum PrettystrictError {
    UnexpectedToken(String),
    EndOfFile,
    Custom(String),
    UnknownProperty(String),
    /// A file could not be read; holds the reason.
    IoError(String),
    /// A catalog could not be decoded; holds the reason.
    JsonError(String),
    UnknownValue(String),
    DuplicateProperty,
    NoUnitFound,
    WrongUnitDeclared,
    ProperyOverride,
    InvalidDeclaration,
}

/// What a `PrettystrictError` holds, as characters.
pub enum ErrorKind {
    UnexpectedToken(Seq<char>),
    EndOfFile,
    Custom(Seq<char>),
    UnknownProperty(Seq<char>),
    IoError(Seq<char>),
    JsonError(Seq<char>),
    UnknownValue(Seq<char>),
    DuplicateProperty,
    NoUnitFound,
    WrongUnitDeclared,
    ProperyOverride,
    InvalidDeclaration,
}

impl View for PrettystrictError {
    type V = ErrorKind;

    open spec fn view(&self) -> ErrorKind {
        match self {
            PrettystrictError::UnexpectedToken(s) => ErrorKind::UnexpectedToken(s@),
            PrettystrictError::EndOfFile => ErrorKind::EndOfFile,
            PrettystrictError::Custom(s) => ErrorKind::Custom(s@),
            PrettystrictError::UnknownProperty(s) => ErrorKind::UnknownProperty(s@),
            PrettystrictError::IoError(s) => ErrorKind::IoError(s@),
            PrettystrictError::JsonError(s) => ErrorKind::JsonError(s@),
            PrettystrictError::UnknownValue(s) => ErrorKind::UnknownValue(s@),
            PrettystrictError::DuplicateProperty => ErrorKind::DuplicateProperty,
            PrettystrictError::NoUnitFound => ErrorKind::NoUnitFound,
            PrettystrictError::WrongUnitDeclared => ErrorKind::WrongUnitDeclared,
            PrettystrictError::ProperyOverride => ErrorKind::ProperyOverride,
            PrettystrictError::InvalidDeclaration => ErrorKind::InvalidDeclaration,
        }
    }
}

/// The text that describes an error of this kind.
pub open spec fn kind_text(k: ErrorKind) -> Seq<char> {
    match k {
        ErrorKind::UnexpectedToken(s) => "Unexpected token: "@ + s,
        ErrorKind::EndOfFile => "Unexpected end of file"@,
        ErrorKind::Custom(s) => "Parse error: "@ + s,
        ErrorKind::UnknownProperty(s) => "file error: "@ + s,
        ErrorKind::IoError(s) => "file error: "@ + s,
        ErrorKind::JsonError(s) => "json error: "@ + s,
        ErrorKind::UnknownValue(s) => "file error: "@ + s,
        ErrorKind::DuplicateProperty => "file error"@,
        ErrorKind::NoUnitFound => "no units have been declared"@,
        ErrorKind::WrongUnitDeclared => "wrong unit has been declared"@,
        ErrorKind::ProperyOverride => "propery overridden "@,
        ErrorKind::InvalidDeclaration => "invalid declaration"@,
    }
}

fn prefixed(prefix: &str, s: &String) -> (r: String)
    ensures
        r@ == prefix@ + s@,
{
    let mut r = String::from_str(prefix);
    r.append(s.as_str());
    r
}

impl PrettystrictError {
    /// The text that describes this error.
    pub fn to_string(&self) -> (r: String)
        ensures
            r@ == kind_text(self@),
    {
        match self {
            PrettystrictError::UnexpectedToken(s) => prefixed("Unexpected token: ", s),
            PrettystrictError::EndOfFile => String::from_str("Unexpected end of file"),
            PrettystrictError::Custom(s) => prefixed("Parse error: ", s),
            PrettystrictError::UnknownProperty(s) => prefixed("file error: ", s),
            PrettystrictError::IoError(s) => prefixed("file error: ", s),
            PrettystrictError::JsonError(s) => prefixed("json error: ", s),
            PrettystrictError::UnknownValue(s) => prefixed("file error: ", s),
            PrettystrictError::DuplicateProperty => String::from_str("file error"),
            PrettystrictError::NoUnitFound => String::from_str("no units have been declared"),
            PrettystrictError::WrongUnitDeclared => String::from_str("wrong unit has been declared"),
            PrettystrictError::ProperyOverride => String::from_str("propery overridden "),
            PrettystrictError::InvalidDeclaration => String::from_str("invalid declaration"),
        }
    }
}

/// One diagnostic: the rule's selector, the property it is about (may be
/// empty), a message and its kind.
#[derive(Clone, Debug, PartialEq, Eq)]
pub struct LintError {
    pub selector: String,
    pub property: String,
    pub message: String,
    pub kind: PrettystrictError,
}

/// What a `LintError` holds, as characters.
pub struct Diagnostic {
    pub selector: Seq<char>,
    pub property: Seq<char>,
    pub message: Seq<char>,
    pub kind: ErrorKind,
}

impl View for LintError {
    type V = Diagnostic;

    open spec fn view(&self) -> Diagnostic {
        Diagnostic {
            selector: self.selector@,
            property: self.property@,
            message: self.message@,
            kind: self.kind@,
        }
    }
}

/// The views of a sequence of diagnostics.
pub open spec fn diagnostics(v: Seq<LintError>) -> Seq<Diagnostic> {
    v.map_values(|e: LintError| e@)
}

/// The diagnostic that stands for an error raised outside any rule.
pub open spec fn from_kind(k: ErrorKind) -> Diagnostic {
    Diagnostic { selector: Seq::empty(), property: Seq::empty(), message: kind_text(k), kind: k }
}

impl From<PrettystrictError> for LintError {
    fn from(err: PrettystrictError) -> (r: LintError)
        ensures
            r@ == from_kind(err@),
    {
        let message = err.to_string();
        LintError { selector: String::new(), property: String::new(), message, kind: err }
    }
}

impl vstd::std_specs::convert::FromSpecImpl<PrettystrictError> for LintError {
    open spec fn obeys_from_spec() -> bool {
        false
    }

    open spec fn from_spec(err: PrettystrictError) -> LintError {
        vstd::pervasive::arbitrary()
    }
}

/// Why the full parser rejected a style sheet.
#[derive(Clone, Copy, Debug, PartialEq, Eq)]
pub enum ParseFailure {
    AtRuleBodyInvalid,
    AtRulePreludeInvalid,
    AtRuleInvalid,
    EndOfInput,
    InvalidDeclaration,
    InvalidMediaQuery,
    EmptyBracketInCondition,
    InvalidNesting,
    DeprecatedNestRule,
    DeprecatedCssModulesValueRule,
    InvalidPageSelector,
    InvalidValue,
    QualifiedRuleInvalid,
    SelectorError,
    UnexpectedImportRule,
    UnexpectedNamespaceRule,
    UnexpectedToken,
    MaximumNestingDepth,
}

/// The error that stands for a parser failure: the end of the input, or a
/// `Custom` error that names the failure.
pub open spec fn failure_kind(f: ParseFailure) -> ErrorKind {
    match f {
        ParseFailure::AtRuleBodyInvalid => ErrorKind::Custom("invalid rule body"@),
        ParseFailure::AtRulePreludeInvalid => ErrorKind::Custom("invalid rule prelude"@),
        ParseFailure::AtRuleInvalid => ErrorKind::Custom("invalid rule"@),
        ParseFailure::EndOfInput => ErrorKind::EndOfFile,
        ParseFailure::InvalidDeclaration => ErrorKind::Custom("invalid declaration"@),
        ParseFailure::InvalidMediaQuery => ErrorKind::Custom("invalid media query"@),
        ParseFailure::EmptyBracketInCondition => ErrorKind::Custom("empty bracket in condition"@),
        ParseFailure::InvalidNesting => ErrorKind::Custom("invalid nesting"@),
        ParseFailure::DeprecatedNestRule => ErrorKind::Custom("deprecated nesting rule"@),
        ParseFailure::DeprecatedCssModulesValueRule => ErrorKind::Custom(
            "deprecated css-modules-value-rule"@,
        ),
        ParseFailure::InvalidPageSelector => ErrorKind::Custom("invalid page-selector"@),
        ParseFailure::InvalidValue => ErrorKind::Custom("invalid value"@),
        ParseFailure::QualifiedRuleInvalid => ErrorKind::Custom("qualified rule invalid"@),
        ParseFailure::SelectorError => ErrorKind::Custom("invalid selector"@),
        ParseFailure::UnexpectedImportRule => ErrorKind::Custom("unexpected import rule"@),
        ParseFailure::UnexpectedNamespaceRule => ErrorKind::Custom("unexpected namespace rule"@),
        ParseFailure::UnexpectedToken => ErrorKind::Custom("unexpected token"@),
        ParseFailure::MaximumNestingDepth => ErrorKind::Custom("maximum nesting depth"@),
    }
}

fn custom(text: &str) -> (r: PrettystrictError)
    ensures
        r@ == ErrorKind::Custom(text@),
{
    PrettystrictError::Custom(String::from_str(text))
}

impl From<ParseFailure> for PrettystrictError {
    fn from(err: ParseFailure) -> (r: PrettystrictError)
        ensures
            r@ == failure_kind(err),
    {
        match err {
            ParseFailure::AtRuleBodyInvalid => custom("invalid rule body"),
            ParseFailure::AtRulePreludeInvalid => custom("invalid rule prelude"),
            ParseFailure::AtRuleInvalid => custom("invalid rule"),
            ParseFailure::EndOfInput => PrettystrictError::EndOfFile,
            ParseFailure::InvalidDeclaration => custom("invalid declaration"),
            ParseFailure::InvalidMediaQuery => custom("invalid media query"),
            ParseFailure::EmptyBracketInCondition => custom("empty bracket in condition"),
            ParseFailure::InvalidNesting => custom("invalid nesting"),
            ParseFailure::DeprecatedNestRule => custom("deprecated nesting rule"),
            ParseFailure::DeprecatedCssModulesValueRule => custom("deprecated css-modules-value-rule"),
            ParseFailure::InvalidPageSelector => custom("invalid page-selector"),
            ParseFailure::InvalidValue => custom("invalid value"),
            ParseFailure::QualifiedRuleInvalid => custom("qualified rule invalid"),
            ParseFailure::SelectorError => custom("invalid selector"),
            ParseFailure::UnexpectedImportRule => custom("unexpected import rule"),
            ParseFailure::UnexpectedNamespaceRule => custom("unexpected namespace rule"),
            ParseFailure::UnexpectedToken => custom("unexpected token"),
            ParseFailure::MaximumNestingDepth => custom("maximum nesting depth"),
        }
    }
}

impl vstd::std_specs::convert::FromSpecImpl<ParseFailure> for PrettystrictError {
    open spec fn obeys_from_spec() -> bool {
        false
    }

    open spec fn from_spec(err: ParseFailure) -> PrettystrictError {
        vstd::pervasive::arbitrary()
    }
}

} // verus!
