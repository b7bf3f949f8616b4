//! The value catalog and the check of each declaration's value against the
//! rule bound to its property.
use vstd::prelude::*;

use crate::error::{Diagnostic, ErrorKind, LintError, PrettystrictError, diagnostics};
use crate::number::{Number, parse_quantity, quantity_of};
use crate::rules::check_property::{
    Property,
    Rule,
    lemma_diagnostics_add,
    lemma_diagnostics_push,
    lemma_per_declaration_step,
    per_declaration,
};
use crate::text::{concat3, concat4, contains_string, same_text, views};

verus! {

/// What a keyword of a `KeywordGroup` allows and which sibling properties
/// it rules out.
#[derive(Clone, Debug, PartialEq, Eq)]
pub struct KeywordRule {
    pub allowed: Option<Vec<String>>,
    pub ignores: Option<Vec<String>>,
}

/// An inclusive range of numbers.
#[derive(Clone, Debug, PartialEq, Eq)]
pub struct Range {
    pub min: Number,
    pub max: Number,
}

/// The rule bound to a property.
#[derive(Clone, Debug, PartialEq, Eq)]
pub enum ValueRule {
    /// The value must be one of these, exactly.
    AllowedValues { allowed: Vec<String> },
    /// The value must be a number in `range` followed by one of `units`.
    UnitRange { units: Vec<String>, range: Range },
    /// Keywords, each with what it allows and rules out.
    KeywordGroup { keywords: Vec<(String, KeywordRule)> },
}

/// The value rules by property, and the longhands of each shorthand, as
/// lists of `(key, entry)`; `wf` says when they are maps.
#[derive(Clone, Debug, PartialEq, Eq)]
pub struct ValueList {
    pub properties: Vec<(String, ValueRule)>,
    pub shorthands: Option<Vec<(String, Vec<String>)>>,
}

/// Whether no two entries of `entries` share a key: the entries then form
/// a map.
pub open spec fn keys_unique<T>(entries: Seq<(String, T)>) -> bool {
    forall|i: int, j: int|
        0 <= i < j < entries.len() ==> #[trigger] entries[i].0@ != #[trigger] entries[j].0@
}

impl ValueList {
    /// The catalog's maps are maps: property names, the keywords of each
    /// keyword group, and shorthand names are each listed once. The checks
    /// read any list; where a key is listed twice they take its first entry.
    pub open spec fn wf(self) -> bool {
        &&& keys_unique(self.properties@)
        &&& forall|k: int|
            0 <= k < self.properties@.len() ==> match #[trigger] self.properties@[k].1 {
                ValueRule::KeywordGroup { keywords } => keys_unique(keywords@),
                _ => true,
            }
        &&& match self.shorthands {
            Some(families) => keys_unique(families@),
            None => true,
        }
    }
}

/// In a map, `lookup` finds the one entry of each key.
pub proof fn lemma_lookup_unique<T>(entries: Seq<(String, T)>, i: int)
    requires
        keys_unique(entries),
        0 <= i < entries.len(),
    ensures
        lookup(entries, entries[i].0@) == Some(entries[i].1),
    decreases i,
{
    if i > 0 {
        let rest = entries.drop_first();
        assert(entries[0].0@ != entries[i].0@);
        assert forall|a: int, b: int| 0 <= a < b < rest.len() implies #[trigger] rest[a].0@
            != #[trigger] rest[b].0@ by {
            assert(rest[a] == entries[a + 1] && rest[b] == entries[b + 1]);
        }
        lemma_lookup_unique(rest, i - 1);
    }
}

/// The entry that `key` names; the first one where several do.
pub open spec fn lookup<T>(entries: Seq<(String, T)>, key: Seq<char>) -> Option<T>
    decreases entries.len(),
{
    if entries.len() == 0 {
        None
    } else if entries[0].0@ == key {
        Some(entries[0].1)
    } else {
        lookup(entries.drop_first(), key)
    }
}

proof fn lemma_lookup_skip<T>(entries: Seq<(String, T)>, key: Seq<char>, i: int)
    requires
        0 <= i <= entries.len(),
        forall|k: int| 0 <= k < i ==> entries[k].0@ != key,
    ensures
        lookup(entries, key) == lookup(entries.skip(i), key),
    decreases i,
{
    if i > 0 {
        assert(entries.drop_first().skip(i - 1) =~= entries.skip(i));
        lemma_lookup_skip(entries.drop_first(), key, i - 1);
    } else {
        assert(entries.skip(0) =~= entries);
    }
}

/// Where `key` stands in `entries`: the index of the entry that `lookup`
/// finds.
pub fn find_entry<T>(entries: &Vec<(String, T)>, key: &str) -> (r: Option<usize>)
    ensures
        match r {
            Some(i) => i < entries@.len() && lookup(entries@, key@) == Some(entries@[i as int].1),
            None => lookup(entries@, key@) is None,
        },
{
    let mut i: usize = 0;
    while i < entries.len()
        invariant
            i <= entries@.len(),
            forall|k: int| 0 <= k < i ==> entries@[k].0@ != key@,
        decreases entries.len() - i,
    {
        if same_text(entries[i].0.as_str(), key) {
            proof {
                lemma_lookup_skip(entries@, key@, i as int);
            }
            return Some(i);
        }
        i = i + 1;
    }
    proof {
        lemma_lookup_skip(entries@, key@, i as int);
    }
    None
}

/// The value of the first declaration of `name`.
pub open spec fn first_value(decls: Seq<Property>, name: Seq<char>) -> Option<Seq<char>>
    decreases decls.len(),
{
    if decls.len() == 0 {
        None
    } else if decls[0].name@ == name {
        Some(decls[0].value@)
    } else {
        first_value(decls.drop_first(), name)
    }
}

proof fn lemma_first_value_skip(decls: Seq<Property>, name: Seq<char>, i: int)
    requires
        0 <= i <= decls.len(),
        forall|k: int| 0 <= k < i ==> decls[k].name@ != name,
    ensures
        first_value(decls, name) == first_value(decls.skip(i), name),
    decreases i,
{
    if i > 0 {
        assert(decls.drop_first().skip(i - 1) =~= decls.skip(i));
        lemma_first_value_skip(decls.drop_first(), name, i - 1);
    } else {
        assert(decls.skip(0) =~= decls);
    }
}

/// Whether `value` is a number within `range` followed by one of `units`.
pub open spec fn quantity_fits(value: Seq<char>, units: Seq<String>, range: Range) -> bool {
    match quantity_of(value) {
        Some((n, unit)) => views(units).contains(unit) && range.min.spec_le(n) && n.spec_le(
            range.max,
        ),
        None => false,
    }
}

/// A diagnostic on the value of declaration `d`.
pub open spec fn value_error(selector: Seq<char>, d: Property, message: Seq<char>) -> Diagnostic {
    Diagnostic { selector, property: d.name@, message, kind: ErrorKind::UnknownValue(d.value@) }
}

/// What `check_value` reports of one declaration, by the rule bound to its
/// property.
pub open spec fn value_step(selector: Seq<char>, known: ValueList) -> spec_fn(
    Seq<Property>,
    Property,
) -> Seq<Diagnostic> {
    |before: Seq<Property>, d: Property|
        match lookup(known.properties@, d.name@) {
            Some(ValueRule::AllowedValues { allowed }) => if views(allowed@).contains(d.value@) {
                Seq::empty()
            } else {
                seq![
                    value_error(
                        selector,
                        d,
                        "\u{2018}"@ + d.value@ + "\u{2019} is not an allowed value for "@ + d.name@,
                    ),
                ]
            },
            Some(ValueRule::UnitRange { units, range }) => if quantity_fits(
                d.value@,
                units@,
                range,
            ) {
                Seq::empty()
            } else {
                seq![
                    value_error(
                        selector,
                        d,
                        "\u{2018}"@ + d.value@ + "\u{2019} is not a valid unit/range for "@
                            + d.name@,
                    ),
                ]
            },
            Some(ValueRule::KeywordGroup { keywords }) => if d.name@ == "position"@ && lookup(
                keywords@,
                d.value@,
            ) is None {
                seq![value_error(selector, d, "Invalid value for position: '"@ + d.value@ + "'"@)]
            } else {
                Seq::empty()
            },
            None => seq![
                value_error(selector, d, "No known values defined for '"@ + d.name@ + "'"@),
            ],
        }
}

/// The properties that `static` rules out, where the catalog gives
/// `position` a keyword group with a `static` entry that lists them.
pub open spec fn static_ignores(known: ValueList) -> Option<Seq<String>> {
    match lookup(known.properties@, "position"@) {
        Some(ValueRule::KeywordGroup { keywords }) => match lookup(keywords@, "static"@) {
            Some(k) => match k.ignores {
                Some(ignores) => Some(ignores@),
                None => None,
            },
            None => None,
        },
        _ => None,
    }
}

/// What the `static` position reports of one declaration.
pub open spec fn static_step(selector: Seq<char>, ignores: Seq<String>) -> spec_fn(
    Seq<Property>,
    Property,
) -> Seq<Diagnostic> {
    |before: Seq<Property>, d: Property|
        if views(ignores).contains(d.name@) {
            seq![value_error(selector, d, "'"@ + d.name@ + "' is not valid for static."@)]
        } else {
            Seq::empty()
        }
}

/// Where the rule's `position` is `static`: one diagnostic for each
/// declaration of a property that `static` rules out.
pub open spec fn static_diagnostics(rule: Rule, known: ValueList) -> Seq<Diagnostic> {
    if first_value(rule.declaration@, "position"@) == Some("static"@) && static_ignores(
        known,
    ) is Some {
        per_declaration(
            rule.declaration@,
            static_step(rule.selector@, static_ignores(known)->0),
        )
    } else {
        Seq::empty()
    }
}

/// The diagnostics of `check_value`: those of each declaration in turn,
/// then those of a `static` position.
pub open spec fn value_diagnostics(rule: Rule, known: ValueList) -> Seq<Diagnostic> {
    per_declaration(rule.declaration@, value_step(rule.selector@, known)) + static_diagnostics(
        rule,
        known,
    )
}

fn value_error_of(selector: &String, d: &Property, message: String) -> (r: LintError)
    ensures
        r@ == value_error(selector@, *d, message@),
{
    LintError {
        selector: selector.clone(),
        property: d.name.clone(),
        message,
        kind: PrettystrictError::UnknownValue(d.value.clone()),
    }
}

/// Whether `value` is a number within `range` followed by one of `units`.
pub fn fits_range(value: &str, units: &Vec<String>, range: &Range) -> (r: bool)
    ensures
        r == quantity_fits(value@, units@, *range),
{
    match parse_quantity(value) {
        Some((n, unit)) => contains_string(units, unit.as_str()) && range.min.le(&n) && n.le(
            &range.max,
        ),
        None => false,
    }
}

/// The diagnostics of one declaration.
fn declaration_errors(selector: &String, known: &ValueList, d: &Property) -> (r: Vec<LintError>)
    ensures
        forall|before: Seq<Property>|
            diagnostics(r@) == #[trigger] value_step(selector@, *known)(before, *d),
{
    let mut errors: Vec<LintError> = Vec::new();
    let ghost none: Seq<Diagnostic> = Seq::empty();
    match find_entry(&known.properties, d.name.as_str()) {
        Some(i) => {
            match &known.properties[i].1 {
                ValueRule::AllowedValues { allowed } => {
                    if !contains_string(allowed, d.value.as_str()) {
                        let m = concat4(
                            "\u{2018}",
                            d.value.as_str(),
                            "\u{2019} is not an allowed value for ",
                            d.name.as_str(),
                        );
                        errors.push(value_error_of(selector, d, m));
                    }
                },
                ValueRule::UnitRange { units, range } => {
                    if !fits_range(d.value.as_str(), units, range) {
                        let m = concat4(
                            "\u{2018}",
                            d.value.as_str(),
                            "\u{2019} is not a valid unit/range for ",
                            d.name.as_str(),
                        );
                        errors.push(value_error_of(selector, d, m));
                    }
                },
                ValueRule::KeywordGroup { keywords } => {
                    if same_text(d.name.as_str(), "position") && find_entry(
                        keywords,
                        d.value.as_str(),
                    ).is_none() {
                        let m = concat3("Invalid value for position: '", d.value.as_str(), "'");
                        errors.push(value_error_of(selector, d, m));
                    }
                },
            }
        },
        None => {
            let m = concat3("No known values defined for '", d.name.as_str(), "'");
            errors.push(value_error_of(selector, d, m));
        },
    }
    proof {
        assert(diagnostics(errors@) =~= value_step(selector@, *known)(Seq::empty(), *d));
    }
    errors
}

/// The value of the first `position` declaration.
fn position_value(decls: &Vec<Property>) -> (r: Option<&String>)
    ensures
        match r {
            Some(v) => first_value(decls@, "position"@) == Some(v@),
            None => first_value(decls@, "position"@) is None,
        },
{
    let mut i: usize = 0;
    while i < decls.len()
        invariant
            i <= decls@.len(),
            forall|k: int| 0 <= k < i ==> decls@[k].name@ != "position"@,
        decreases decls.len() - i,
    {
        if same_text(decls[i].name.as_str(), "position") {
            proof {
                lemma_first_value_skip(decls@, "position"@, i as int);
            }
            return Some(&decls[i].value);
        }
        i = i + 1;
    }
    proof {
        lemma_first_value_skip(decls@, "position"@, i as int);
    }
    None
}

/// The properties that `static` rules out, as `static_ignores` gives them.
fn static_ignore_list(known: &ValueList) -> (r: Option<&Vec<String>>)
    ensures
        match r {
            Some(v) => static_ignores(*known) == Some(v@),
            None => static_ignores(*known) is None,
        },
{
    match find_entry(&known.properties, "position") {
        Some(i) => match &known.properties[i].1 {
            ValueRule::KeywordGroup { keywords } => match find_entry(keywords, "static") {
                Some(j) => match &keywords[j].1.ignores {
                    Some(ignores) => Some(ignores),
                    None => None,
                },
                None => None,
            },
            _ => None,
        },
        None => None,
    }
}

/// The diagnostics of a `static` position.
fn static_errors(rule: &Rule, known: &ValueList) -> (r: Vec<LintError>)
    ensures
        diagnostics(r@) == static_diagnostics(*rule, *known),
{
    let mut errors: Vec<LintError> = Vec::new();
    let is_static = match position_value(&rule.declaration) {
        Some(v) => same_text(v.as_str(), "static"),
        None => false,
    };
    if !is_static {
        return errors;
    }
    let ignores = match static_ignore_list(known) {
        Some(ignores) => ignores,
        None => {
            return errors;
        },
    };
    let ghost step = static_step(rule.selector@, ignores@);
    let mut i: usize = 0;
    while i < rule.declaration.len()
        invariant
            i <= rule.declaration@.len(),
            step == static_step(rule.selector@, ignores@),
            diagnostics(errors@) == per_declaration(rule.declaration@.take(i as int), step),
        decreases rule.declaration.len() - i,
    {
        let d = &rule.declaration[i];
        proof {
            lemma_per_declaration_step(rule.declaration@, step, i as int);
        }
        if contains_string(ignores, d.name.as_str()) {
            let m = concat3("'", d.name.as_str(), "' is not valid for static.");
            let e = value_error_of(&rule.selector, d, m);
            proof {
                lemma_diagnostics_push(errors@, e);
                assert(seq![e@] == step(rule.declaration@.take(i as int), *d));
            }
            errors.push(e);
        } else {
            proof {
                assert(step(rule.declaration@.take(i as int), *d) =~= Seq::empty());
            }
        }
        i = i + 1;
    }
    proof {
        assert(rule.declaration@.take(i as int) =~= rule.declaration@);
    }
    errors
}

/// Checks each declaration's value against the rule bound to its property,
/// then, where the rule's `position` is `static`, reports each declaration
/// of a property that `static` rules out.
pub fn check_value(rule: &Rule, known_values: &ValueList) -> (r: Vec<LintError>)
    ensures
        diagnostics(r@) == value_diagnostics(*rule, *known_values),
{
    let mut errors: Vec<LintError> = Vec::new();
    let ghost step = value_step(rule.selector@, *known_values);
    let mut i: usize = 0;
    while i < rule.declaration.len()
        invariant
            i <= rule.declaration@.len(),
            step == value_step(rule.selector@, *known_values),
            diagnostics(errors@) == per_declaration(rule.declaration@.take(i as int), step),
        decreases rule.declaration.len() - i,
    {
        let mut more = declaration_errors(&rule.selector, known_values, &rule.declaration[i]);
        proof {
            lemma_per_declaration_step(rule.declaration@, step, i as int);
            lemma_diagnostics_add(errors@, more@);
            assert(diagnostics(more@) == step(
                rule.declaration@.take(i as int),
                rule.declaration@[i as int],
            ));
        }
        errors.append(&mut more);
        i = i + 1;
    }
    proof {
        assert(rule.declaration@.take(i as int) =~= rule.declaration@);
    }
    let mut more = static_errors(rule, known_values);
    proof {
        lemma_diagnostics_add(errors@, more@);
    }
    errors.append(&mut more);
    errors
}

} // verus!
