//! The check of the unit that a value carries, by the rule bound to its
//! property.
use vstd::prelude::*;

use crate::error::{Diagnostic, ErrorKind, LintError, PrettystrictError, diagnostics};
use crate::number::{extract_unit, unit_of};
use crate::rules::check_property::{
    Property,
    Rule,
    lemma_diagnostics_add,
    lemma_per_declaration_step,
    per_declaration,
};
use crate::rules::check_value::{ValueList, ValueRule, find_entry, lookup};
use crate::text::{concat5, contains_string};

verus! {

/// What `unit_check` reports of one declaration: nothing where its value
/// carries no unit; else by the rule bound to its property.
pub open spec fn unit_step(selector: Seq<char>, known: ValueList) -> spec_fn(
    Seq<Property>,
    Property,
) -> Seq<Diagnostic> {
    |before: Seq<Property>, d: Property|
        match unit_of(d.value@) {
            None => Seq::empty(),
            Some(unit) => match lookup(known.properties@, d.name@) {
                Some(ValueRule::UnitRange { units, range }) => if crate::text::views(
                    units@,
                ).contains(unit) {
                    Seq::empty()
                } else {
                    seq![
                        Diagnostic {
                            selector,
                            property: d.name@,
                            message: "Unit '"@ + unit + "' is not allowed for '"@ + d.name@ + "'"@,
                            kind: ErrorKind::WrongUnitDeclared,
                        },
                    ]
                },
                Some(ValueRule::AllowedValues { allowed }) => seq![
                    Diagnostic {
                        selector,
                        property: d.name@,
                        message: "Unexpected unit '"@ + unit + "' for keyword-only property '"@
                            + d.name@ + "'"@,
                        kind: ErrorKind::WrongUnitDeclared,
                    },
                ],
                Some(ValueRule::KeywordGroup { keywords }) => Seq::empty(),
                None => seq![
                    Diagnostic {
                        selector,
                        property: d.name@,
                        message: "Unknown property '"@ + d.name@
                            + "' \u{2014} no unit validation rule found"@,
                        kind: ErrorKind::UnknownProperty(d.name@),
                    },
                ],
            },
        }
}

/// The diagnostics of `unit_check`.
pub open spec fn unit_diagnostics(rule: Rule, known: ValueList) -> Seq<Diagnostic> {
    per_declaration(rule.declaration@, unit_step(rule.selector@, known))
}

fn unit_errors(selector: &String, known: &ValueList, d: &Property) -> (r: Vec<LintError>)
    ensures
        forall|before: Seq<Property>|
            diagnostics(r@) == #[trigger] unit_step(selector@, *known)(before, *d),
{
    let mut errors: Vec<LintError> = Vec::new();
    let unit = match extract_unit(d.value.as_str()) {
        Some(unit) => unit,
        None => {
            proof {
                assert(diagnostics(errors@) =~= unit_step(selector@, *known)(Seq::empty(), *d));
            }
            return errors;
        },
    };
    match find_entry(&known.properties, d.name.as_str()) {
        Some(i) => match &known.properties[i].1 {
            ValueRule::UnitRange { units, .. } => {
                if !contains_string(units, unit.as_str()) {
                    let message = concat5(
                        "Unit '",
                        unit.as_str(),
                        "' is not allowed for '",
                        d.name.as_str(),
                        "'",
                    );
                    errors.push(
                        LintError {
                            selector: selector.clone(),
                            property: d.name.clone(),
                            message,
                            kind: PrettystrictError::WrongUnitDeclared,
                        },
                    );
                }
            },
            ValueRule::AllowedValues { .. } => {
                let message = concat5(
                    "Unexpected unit '",
                    unit.as_str(),
                    "' for keyword-only property '",
                    d.name.as_str(),
                    "'",
                );
                errors.push(
                    LintError {
                        selector: selector.clone(),
                        property: d.name.clone(),
                        message,
                        kind: PrettystrictError::WrongUnitDeclared,
                    },
                );
            },
            ValueRule::KeywordGroup { .. } => {},
        },
        None => {
            let mut message = String::from_str("Unknown property '");
            message.append(d.name.as_str());
            message.append("' \u{2014} no unit validation rule found");
            errors.push(
                LintError {
                    selector: selector.clone(),
                    property: d.name.clone(),
                    message,
                    kind: PrettystrictError::UnknownProperty(d.name.clone()),
                },
            );
        },
    }
    proof {
        assert(diagnostics(errors@) =~= unit_step(selector@, *known)(Seq::empty(), *d));
    }
    errors
}

/// Checks the unit that each declaration's value carries: a unit the
/// property's range does not list, any unit on a keyword-only property, and
/// a unit on a property the value catalog lacks are reported.
pub fn unit_check(rule: &Rule, known_values: &ValueList) -> (r: Vec<LintError>)
    ensures
        diagnostics(r@) == unit_diagnostics(*rule, *known_values),
{
    let mut errors: Vec<LintError> = Vec::new();
    let ghost step = unit_step(rule.selector@, *known_values);
    let mut i: usize = 0;
    while i < rule.declaration.len()
        invariant
            i <= rule.declaration@.len(),
            step == unit_step(rule.selector@, *known_values),
            diagnostics(errors@) == per_declaration(rule.declaration@.take(i as int), step),
        decreases rule.declaration.len() - i,
    {
        let mut more = unit_errors(&rule.selector, known_values, &rule.declaration[i]);
        proof {
            lemma_per_declaration_step(rule.declaration@, step, i as int);
            lemma_diagnostics_add(errors@, more@);
            assert(diagnostics(more@) == step(
                rule.declaration@.take(i as int),
                rule.declaration@[i as int],
            ));
        }
        errors.append(&mut more);
        i = i + 1;
    }
    proof {
        assert(rule.declaration@.take(i as int) =~= rule.declaration@);
    }
    errors
}

} // verus!
