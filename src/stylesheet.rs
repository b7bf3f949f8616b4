//! The full style-sheet parser. lightningcss reads the text; each wrapper
//! below makes one call into it and hands back plain values, and the walk
//! over the parsed rules is verified here.
use lightningcss::printer::{Printer, PrinterOptions};
use lightningcss::properties::Property as ParsedProperty;
use lightningcss::rules::keyframes::Keyframe as ParsedKeyframe;
use lightningcss::rules::CssRule;
use lightningcss::stylesheet::{ParserOptions, StyleSheet};
use lightningcss::traits::ToCss;
use lightningcss::values::color::CssColor;
use vstd::prelude::*;

use crate::error::{ErrorKind, LintError, PrettystrictError};
use crate::parse_css::{CssNode, Keyframe, collect_rules};
use crate::rules::check_property::{Property, Rule};
use crate::text::same_text;

verus! {

/// The rules of a parsed style sheet. lightningcss's rule type names an
/// at-rule type that the crate keeps private, so the rules stay hidden here.
#[verifier::external_body]
pub struct ParsedSheet<'i> {
    rules: Vec<CssRule<'i>>,
}

/// One rule of a parsed style sheet.
#[verifier::external_body]
pub struct SheetRule<'a, 'i> {
    rule: &'a CssRule<'i>,
}

#[verifier::external_type_specification]
#[verifier::external_body]
pub struct ExParsedProperty<'i>(ParsedProperty<'i>);

#[verifier::external_type_specification]
#[verifier::external_body]
pub struct ExParsedKeyframe<'i>(ParsedKeyframe<'i>);

/// The kinds of parsed rule that the rule collector reads.
#[derive(Clone, Copy, Debug, PartialEq, Eq)]
pub enum RuleKind {
    Style,
    Media,
    Supports,
    Keyframes,
    FontFace,
    Other,
}

/// Relies on lightningcss's `StyleSheet::parse`: the rules of `css`, or the
/// parser's error as text.
#[verifier::external_body]
fn parse_rules(css: &str) -> (r: Result<ParsedSheet<'_>, String>) {
    match StyleSheet::parse(css, ParserOptions::default()) {
        Ok(sheet) => Ok(ParsedSheet { rules: sheet.rules.0 }),
        Err(e) => Err(e.to_string()),
    }
}

/// Relies on lightningcss's `StyleSheet`: its top-level rules, in order.
#[verifier::external_body]
fn sheet_rules<'a, 'i>(sheet: &'a ParsedSheet<'i>) -> (r: Vec<SheetRule<'a, 'i>>) {
    sheet.rules.iter().map(|rule| SheetRule { rule }).collect()
}

/// Relies on lightningcss's `CssRule` enum: which kind `rule` is.
#[verifier::external_body]
fn rule_kind(rule: &SheetRule) -> (r: RuleKind) {
    match rule.rule {
        CssRule::Style(_) => RuleKind::Style,
        CssRule::Media(_) => RuleKind::Media,
        CssRule::Supports(_) => RuleKind::Supports,
        CssRule::Keyframes(_) => RuleKind::Keyframes,
        CssRule::FontFace(_) => RuleKind::FontFace,
        _ => RuleKind::Other,
    }
}

/// Relies on lightningcss's `ToCss`: a style rule's selectors, a media
/// rule's query, a supports rule's condition or a whole keyframes rule,
/// printed.
#[verifier::external_body]
fn rule_text(rule: &SheetRule) -> (r: String) {
    let mut buffer = String::new();
    let mut printer = Printer::new(&mut buffer, PrinterOptions::default());
    let _ = match rule.rule {
        CssRule::Style(s) => s.selectors.to_css(&mut printer),
        CssRule::Media(m) => m.query.to_css(&mut printer),
        CssRule::Supports(s) => s.condition.to_css(&mut printer),
        CssRule::Keyframes(k) => k.to_css(&mut printer),
        _ => Ok(()),
    };
    drop(printer);
    buffer
}

/// Relies on lightningcss's media and supports rules: the rules they hold.
#[verifier::external_body]
fn child_rules<'a, 'i>(rule: &SheetRule<'a, 'i>) -> (r: Vec<SheetRule<'a, 'i>>) {
    match rule.rule {
        CssRule::Media(m) => m.rules.0.iter().map(|rule| SheetRule { rule }).collect(),
        CssRule::Supports(s) => s.rules.0.iter().map(|rule| SheetRule { rule }).collect(),
        _ => Vec::new(),
    }
}

/// Relies on lightningcss's style rules: their declarations, in order.
#[verifier::external_body]
fn rule_declarations<'a, 'i>(rule: &SheetRule<'a, 'i>) -> (r: Vec<&'a ParsedProperty<'i>>) {
    match rule.rule {
        CssRule::Style(s) => s.declarations.declarations.iter().collect(),
        _ => Vec::new(),
    }
}

/// Relies on lightningcss's keyframes rules: their keyframes, in order.
#[verifier::external_body]
fn rule_keyframes<'a, 'i>(rule: &SheetRule<'a, 'i>) -> (r: Vec<&'a ParsedKeyframe<'i>>) {
    match rule.rule {
        CssRule::Keyframes(k) => k.keyframes.iter().collect(),
        _ => Vec::new(),
    }
}

/// Relies on lightningcss's `ToCss`: a keyframe's selectors, printed.
#[verifier::external_body]
fn keyframe_selector(keyframe: &ParsedKeyframe) -> (r: String) {
    let mut buffer = String::new();
    let mut printer = Printer::new(&mut buffer, PrinterOptions::default());
    let _ = keyframe.selectors.to_css(&mut printer);
    drop(printer);
    buffer
}

/// Relies on lightningcss's keyframes: their declarations, in order.
#[verifier::external_body]
fn keyframe_declarations<'a, 'i>(keyframe: &'a ParsedKeyframe<'i>) -> (r: Vec<
    &'a ParsedProperty<'i>,
>) {
    keyframe.declarations.declarations.iter().collect()
}

/// Relies on lightningcss's `ToCss`: each declaration of a font-face rule,
/// printed.
#[verifier::external_body]
fn font_face_texts(rule: &SheetRule) -> (r: Vec<String>) {
    match rule.rule {
        CssRule::FontFace(f) => f.properties.iter().map(|p| {
            let mut buffer = String::new();
            let _ = p.to_css(&mut Printer::new(&mut buffer, PrinterOptions::default()));
            buffer
        }).collect(),
        _ => Vec::new(),
    }
}

/// Relies on lightningcss's `Property::property_id` and `PropertyId::name`:
/// the name of a declaration whose value lightningcss parsed; `None` for
/// unparsed and custom properties.
#[verifier::external_body]
fn property_name(p: &ParsedProperty) -> (r: Option<String>) {
    match p {
        ParsedProperty::Unparsed(_) | ParsedProperty::Custom(_) => None,
        _ => Some(p.property_id().name().to_string()),
    }
}

/// Relies on lightningcss's `Property::value_to_css_string`: the value,
/// printed.
#[verifier::external_body]
fn property_value(p: &ParsedProperty) -> (r: String) {
    p.value_to_css_string(PrinterOptions::default()).unwrap_or_default()
}

/// Relies on lightningcss's color properties: the channels of a `color` or
/// `background-color` given as red, green, blue and alpha.
#[verifier::external_body]
fn property_rgba(p: &ParsedProperty) -> (r: Option<(u8, u8, u8, u8)>) {
    match p {
        ParsedProperty::Color(CssColor::RGBA(c)) | ParsedProperty::BackgroundColor(
            CssColor::RGBA(c),
        ) => Some((c.red, c.green, c.blue, c.alpha)),
        _ => None,
    }
}

/// The properties whose declarations the rule collector reads.
pub open spec fn is_read_property(name: Seq<char>) -> bool {
    name == "background-color"@ || name == "color"@ || name == "width"@ || name == "height"@
        || name == "margin"@ || name == "padding"@ || name == "display"@ || name == "position"@
        || name == "font-size"@ || name == "font-weight"@ || name == "font-family"@ || name
        == "text-align"@ || name == "border"@ || name == "border-radius"@ || name
        == "flex-direction"@ || name == "justify-content"@ || name == "align-items"@ || name
        == "box-shadow"@ || name == "transform"@ || name == "opacity"@ || name == "z-index"@
        || name == "overflow"@ || name == "cursor"@ || name == "visibility"@ || name
        == "box-sizing"@ || name == "text-decoration"@
}

/// Whether the rule collector reads declarations of `name`.
pub fn read_property(name: &str) -> (r: bool)
    ensures
        r == is_read_property(name@),
{
    same_text(name, "background-color") || same_text(name, "color") || same_text(name, "width")
        || same_text(name, "height") || same_text(name, "margin") || same_text(name, "padding")
        || same_text(name, "display") || same_text(name, "position") || same_text(
        name,
        "font-size",
    ) || same_text(name, "font-weight") || same_text(name, "font-family") || same_text(
        name,
        "text-align",
    ) || same_text(name, "border") || same_text(name, "border-radius") || same_text(
        name,
        "flex-direction",
    ) || same_text(name, "justify-content") || same_text(name, "align-items") || same_text(
        name,
        "box-shadow",
    ) || same_text(name, "transform") || same_text(name, "opacity") || same_text(
        name,
        "z-index",
    ) || same_text(name, "overflow") || same_text(name, "cursor") || same_text(
        name,
        "visibility",
    ) || same_text(name, "box-sizing") || same_text(name, "text-decoration")
}

/// The lower-case hexadecimal digit of `n`, below 16.
pub open spec fn hex_digit(n: nat) -> char {
    if n < 10 {
        (('0' as u32) + n) as char
    } else {
        (('a' as u32) + (n - 10)) as char
    }
}

/// `b` as two hexadecimal digits.
pub open spec fn hex_byte(b: u8) -> Seq<char> {
    seq![hex_digit(b as nat / 16), hex_digit(b as nat % 16)]
}

/// An opaque color written `#rrggbb`.
pub open spec fn hex_color(red: u8, green: u8, blue: u8) -> Seq<char> {
    seq!['#'] + hex_byte(red) + hex_byte(green) + hex_byte(blue)
}

fn append_hex_digit(s: &mut String, n: u8)
    requires
        n < 16,
    ensures
        final(s)@ == old(s)@.push(hex_digit(n as nat)),
{
    let digits = "0123456789abcdef";
    proof {
        reveal_strlit("0123456789abcdef");
    }
    let one = digits.substring_char(n as usize, n as usize + 1);
    proof {
        assert(one@ =~= seq![hex_digit(n as nat)]);
    }
    s.append(one);
}

fn append_hex_byte(s: &mut String, b: u8)
    ensures
        final(s)@ == old(s)@ + hex_byte(b),
{
    append_hex_digit(s, b / 16);
    append_hex_digit(s, b % 16);
    proof {
        assert(final(s)@ =~= old(s)@ + hex_byte(b));
    }
}

/// The color `#rrggbb`.
pub fn hex_color_text(red: u8, green: u8, blue: u8) -> (r: String)
    ensures
        r@ == hex_color(red, green, blue),
{
    let mut r = String::from_str("#");
    proof {
        reveal_strlit("#");
    }
    append_hex_byte(&mut r, red);
    append_hex_byte(&mut r, green);
    append_hex_byte(&mut r, blue);
    r
}

/// A parsed declaration as the linter reads it, where its property is one
/// that the linter reads: an opaque color as `#rrggbb`, any other value as
/// lightningcss prints it.
fn read_declaration(p: &ParsedProperty) -> (r: Option<Property>)
    ensures
        match r {
            Some(d) => is_read_property(d.name@),
            None => true,
        },
{
    match property_name(p) {
        Some(name) => {
            if read_property(name.as_str()) {
                let value = match property_rgba(p) {
                    Some((red, green, blue, alpha)) => if alpha == 255 {
                        hex_color_text(red, green, blue)
                    } else {
                        property_value(p)
                    },
                    None => property_value(p),
                };
                Some(Property { name, value })
            } else {
                None
            }
        },
        None => None,
    }
}

/// The declarations of `parsed` that the linter reads, in order.
fn read_declarations(parsed: &Vec<&ParsedProperty>) -> (r: Vec<Property>)
    ensures
        forall|i: int| 0 <= i < r@.len() ==> is_read_property(#[trigger] r@[i].name@),
{
    let mut out: Vec<Property> = Vec::new();
    let mut i: usize = 0;
    while i < parsed.len()
        invariant
            i <= parsed@.len(),
            forall|k: int| 0 <= k < out@.len() ==> is_read_property(#[trigger] out@[k].name@),
        decreases parsed.len() - i,
    {
        match read_declaration(parsed[i]) {
            Some(d) => out.push(d),
            None => {},
        }
        i = i + 1;
    }
    out
}

/// What the rule collector reads of `rule`; rules nested deeper than
/// `depth` are left out.
fn node_of(rule: &SheetRule, depth: usize) -> (r: CssNode)
    decreases depth, 0nat,
{
    match rule_kind(rule) {
        RuleKind::Style => CssNode::Style {
            selector: rule_text(rule),
            declarations: read_declarations(&rule_declarations(rule)),
        },
        RuleKind::Media => if depth == 0 {
            CssNode::Other
        } else {
            CssNode::Media { query: rule_text(rule), rules: nodes_of(&child_rules(rule), depth - 1) }
        },
        RuleKind::Supports => if depth == 0 {
            CssNode::Other
        } else {
            CssNode::Supports {
                condition: rule_text(rule),
                rules: nodes_of(&child_rules(rule), depth - 1),
            }
        },
        RuleKind::Keyframes => {
            let keyframes = rule_keyframes(rule);
            let mut frames: Vec<Keyframe> = Vec::new();
            let mut i: usize = 0;
            while i < keyframes.len()
                decreases keyframes.len() - i,
            {
                let k = keyframes[i];
                frames.push(
                    Keyframe {
                        selector: keyframe_selector(k),
                        declarations: read_declarations(&keyframe_declarations(k)),
                    },
                );
                i = i + 1;
            }
            CssNode::Keyframes { text: rule_text(rule), frames }
        },
        RuleKind::FontFace => {
            let texts = font_face_texts(rule);
            let mut declarations: Vec<Property> = Vec::new();
            let mut i: usize = 0;
            while i < texts.len()
                decreases texts.len() - i,
            {
                declarations.push(
                    Property { name: String::from_str("font-face-property"), value: texts[i].clone() },
                );
                i = i + 1;
            }
            CssNode::FontFace { declarations }
        },
        RuleKind::Other => CssNode::Other,
    }
}

/// What the rule collector reads of each of `rules`.
fn nodes_of(rules: &Vec<SheetRule>, depth: usize) -> (r: Vec<CssNode>)
    decreases depth, 1nat,
{
    let mut out: Vec<CssNode> = Vec::new();
    let mut i: usize = 0;
    while i < rules.len()
        decreases rules.len() - i,
    {
        out.push(node_of(&rules[i], depth));
        i = i + 1;
    }
    out
}

/// The error for a style sheet that lightningcss rejected.
pub open spec fn parse_failed(e: LintError) -> bool {
    &&& e@.selector.len() == 0
    &&& e@.property.len() == 0
    &&& e@.kind == ErrorKind::Custom("parse_css"@)
    &&& e@.message.take(21) == "Failed to parse CSS: "@
}

/// Parses `css_content` with lightningcss and collects its rules, each
/// with the at-rules that enclose it (see `collect_rules`). A style
/// sheet that lightningcss rejects gives a `Custom("parse_css")` error.
pub fn parse_css(css_content: &str) -> (r: Result<Vec<Rule>, LintError>)
    ensures
        match r {
            Ok(_) => true,
            Err(e) => parse_failed(e),
        },
{
    match parse_rules(css_content) {
        Ok(sheet) => {
            // A rule cannot sit deeper than the text is long.
            let depth = css_content.unicode_len();
            let top = sheet_rules(&sheet);
            let nodes = nodes_of(&top, depth);
            Ok(collect_rules(&nodes))
        },
        Err(reason) => {
            let mut message = String::from_str("Failed to parse CSS: ");
            proof {
                reveal_strlit("Failed to parse CSS: ");
            }
            let ghost head = message@;
            message.append(reason.as_str());
            proof {
                assert(message@.take(21) =~= head);
            }
            Err(
                LintError {
                    selector: String::new(),
                    property: String::new(),
                    message,
                    kind: PrettystrictError::Custom(String::from_str("parse_css")),
                },
            )
        },
    }
}

/// The rules of a small built-in style sheet, read by lightningcss.
pub fn parse_css_default() -> (r: Result<Vec<Rule>, LintError>)
    ensures
        match r {
            Ok(_) => true,
            Err(e) => parse_failed(e),
        },
{
    let css_content = "\n        .foo {\n            color: red;\n            font-size: 16px;\n        }\n\n        @media (max-width: 600px) {\n            .bar {\n                background: blue;\n            }\n        }\n    ";
    parse_css(css_content)
}

} // verus!
