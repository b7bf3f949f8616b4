//! All checks on one rule, and on a whole style sheet.
use vstd::prelude::*;

use crate::error::{Diagnostic, ErrorKind, LintError, diagnostics};
use crate::rules::check_property::{
    Property,
    PropertyList,
    Rule,
    at_rule_diagnostics,
    check_at_rule,
    check_props,
    lemma_diagnostics_add,
    per_declaration,
    property_diagnostics,
    property_step,
    unknown_property,
};
use crate::rules::check_value::{ValueList, check_value, value_diagnostics};
use crate::rules::duplicate_declaration::{
    Location,
    check_order,
    duplicate_declaration,
    duplicate_diagnostics,
    order_diagnostics,
    shorthand_detection,
    shorthand_diagnostics,
};
use crate::rules::unit_check::{unit_check, unit_diagnostics};
use crate::text::views;

verus! {

/// Everything the checks report of one rule, check by check: properties,
/// at-rules, values, units, repeats, overrides, order.
pub open spec fn lint_diagnostics(rule: Rule, props: PropertyList, values: ValueList) -> Seq<
    Diagnostic,
> {
    property_diagnostics(rule, props) + at_rule_diagnostics(rule, props) + value_diagnostics(
        rule,
        values,
    ) + unit_diagnostics(rule, values) + duplicate_diagnostics(rule) + shorthand_diagnostics(
        rule,
        values,
    ) + order_diagnostics(rule)
}

/// Everything the checks report of a sequence of rules, rule by rule.
pub open spec fn sheet_diagnostics(rules: Seq<Rule>, props: PropertyList, values: ValueList) -> Seq<
    Diagnostic,
>
    decreases rules.len(),
{
    if rules.len() == 0 {
        Seq::empty()
    } else {
        sheet_diagnostics(rules.drop_last(), props, values) + lint_diagnostics(
            rules.last(),
            props,
            values,
        )
    }
}

/// Runs every check on `rule`, each whatever the others found, and returns
/// all their diagnostics in the order of the checks.
pub fn lint_rules(
    rule: &Rule,
    known_props: &PropertyList,
    known_values: &ValueList,
    location: &Location,
) -> (r: Vec<LintError>)
    ensures
        diagnostics(r@) == lint_diagnostics(*rule, *known_props, *known_values),
{
    let mut errors = check_props(rule, known_props);
    let mut checks = check_at_rule(rule, known_props);
    proof {
        lemma_diagnostics_add(errors@, checks@);
    }
    errors.append(&mut checks);
    let mut checks = check_value(rule, known_values);
    proof {
        lemma_diagnostics_add(errors@, checks@);
    }
    errors.append(&mut checks);
    let mut checks = unit_check(rule, known_values);
    proof {
        lemma_diagnostics_add(errors@, checks@);
    }
    errors.append(&mut checks);
    let mut checks = duplicate_declaration(rule, location);
    proof {
        lemma_diagnostics_add(errors@, checks@);
    }
    errors.append(&mut checks);
    let mut checks = shorthand_detection(rule, known_values);
    proof {
        lemma_diagnostics_add(errors@, checks@);
    }
    errors.append(&mut checks);
    let mut checks = check_order(rule);
    proof {
        lemma_diagnostics_add(errors@, checks@);
    }
    errors.append(&mut checks);
    errors
}

/// Lints every rule of a style sheet once both catalogs have loaded. A
/// catalog that failed to load ends the run with its error before any rule
/// is checked, and no diagnostic comes out; the property catalog's error
/// comes first where both failed.
pub fn lint_stylesheet(
    rules: &Vec<Rule>,
    known_props: Result<PropertyList, LintError>,
    known_values: Result<ValueList, LintError>,
    location: &Location,
) -> (r: Result<Vec<LintError>, LintError>)
    ensures
        match (known_props, known_values) {
            (Err(e), _) => r == Err::<Vec<LintError>, LintError>(e),
            (Ok(_), Err(e)) => r == Err::<Vec<LintError>, LintError>(e),
            (Ok(p), Ok(v)) => r is Ok && diagnostics(r->Ok_0@) == sheet_diagnostics(rules@, p, v),
        },
{
    let props = match known_props {
        Ok(p) => p,
        Err(e) => {
            return Err(e);
        },
    };
    let values = match known_values {
        Ok(v) => v,
        Err(e) => {
            return Err(e);
        },
    };
    let mut all_errors: Vec<LintError> = Vec::new();
    let mut i: usize = 0;
    while i < rules.len()
        invariant
            i <= rules@.len(),
            diagnostics(all_errors@) == sheet_diagnostics(rules@.take(i as int), props, values),
        decreases rules.len() - i,
    {
        let mut errors = lint_rules(&rules[i], &props, &values, location);
        proof {
            assert(rules@.take(i + 1).drop_last() =~= rules@.take(i as int));
            lemma_diagnostics_add(all_errors@, errors@);
        }
        all_errors.append(&mut errors);
        i = i + 1;
    }
    proof {
        assert(rules@.take(i as int) =~= rules@);
    }
    Ok(all_errors)
}

/// The property check reports each declaration whose property the catalog
/// lacks exactly once, in declaration order, as `UnknownProperty` of that
/// property, and reports nothing for a declaration of a known property.
pub proof fn lemma_unknown_property_once(rule: Rule, known: PropertyList)
    ensures
        property_diagnostics(rule, known) == rule.declaration@.filter(
            |d: Property| !views(known.properties@).contains(d.name@),
        ).map_values(|d: Property| unknown_property(rule.selector@, d.name@)),
        forall|k: int|
            0 <= k < property_diagnostics(rule, known).len() ==> (#[trigger] property_diagnostics(
                rule,
                known,
            )[k]).kind == ErrorKind::UnknownProperty(property_diagnostics(rule, known)[k].property),
{
    lemma_unknown_property_filter(rule.declaration@, rule.selector@, known);
}

proof fn lemma_unknown_property_filter(decls: Seq<Property>, selector: Seq<char>, known: PropertyList)
    ensures
        per_declaration(decls, property_step(selector, known)) == decls.filter(
            |d: Property| !views(known.properties@).contains(d.name@),
        ).map_values(|d: Property| unknown_property(selector, d.name@)),
    decreases decls.len(),
{
    reveal(Seq::filter);
    let pred = |d: Property| !views(known.properties@).contains(d.name@);
    let f = |d: Property| unknown_property(selector, d.name@);
    if decls.len() > 0 {
        lemma_unknown_property_filter(decls.drop_last(), selector, known);
        let rest = decls.drop_last().filter(pred);
        if pred(decls.last()) {
            assert(decls.filter(pred) == rest.push(decls.last()));
            assert(rest.push(decls.last()).map_values(f) =~= rest.map_values(f) + seq![
                f(decls.last()),
            ]);
        } else {
            assert(decls.filter(pred) == rest);
            assert(rest.map_values(f) + Seq::<Diagnostic>::empty() =~= rest.map_values(f));
        }
    } else {
        assert(decls.filter(pred).map_values(f) =~= Seq::<Diagnostic>::empty());
    }
}

} // verus!
