//! Checks on the order of a rule's declarations: repeats, shorthands and
//! longhands that override each other, and the canonical property order.
use vstd::prelude::*;

use crate::error::{Diagnostic, ErrorKind, LintError, PrettystrictError, diagnostics};
use crate::rules::check_property::{
    Property,
    Rule,
    lemma_diagnostics_add,
    lemma_diagnostics_push,
    lemma_per_declaration_step,
    per_declaration,
};
use crate::rules::check_value::ValueList;
use crate::text::{concat5, contains_string, same_text, views};

verus! {

/// Where a rule stands in its file.
#[derive(Clone, Copy, Debug, PartialEq, Eq)]
pub struct Location {
    pub line: usize,
    pub column: usize,
}

/// The property names of `decls`, in order.
pub open spec fn names(decls: Seq<Property>) -> Seq<Seq<char>> {
    decls.map_values(|d: Property| d.name@)
}

/// Whether `decls[..i]` declares `name`.
fn declared_before(decls: &Vec<Property>, i: usize, name: &str) -> (r: bool)
    requires
        i <= decls@.len(),
    ensures
        r == names(decls@.take(i as int)).contains(name@),
{
    let ghost before = names(decls@.take(i as int));
    let mut j: usize = 0;
    while j < i
        invariant
            j <= i <= decls@.len(),
            before == names(decls@.take(i as int)),
            forall|k: int| 0 <= k < j ==> before[k] != name@,
        decreases i - j,
    {
        if same_text(decls[j].name.as_str(), name) {
            proof {
                assert(before[j as int] == name@);
            }
            return true;
        }
        j = j + 1;
    }
    false
}

/// What `duplicate_declaration` reports of one declaration: a repeat of a
/// property declared before it.
pub open spec fn duplicate_step(selector: Seq<char>) -> spec_fn(Seq<Property>, Property) -> Seq<
    Diagnostic,
> {
    |before: Seq<Property>, d: Property|
        if names(before).contains(d.name@) {
            seq![
                Diagnostic {
                    selector,
                    property: d.name@,
                    message: "<- duplicate property found."@,
                    kind: ErrorKind::DuplicateProperty,
                },
            ]
        } else {
            Seq::empty()
        }
}

/// One diagnostic for the second and each later declaration of a property.
pub open spec fn duplicate_diagnostics(rule: Rule) -> Seq<Diagnostic> {
    per_declaration(rule.declaration@, duplicate_step(rule.selector@))
}

/// Reports each declaration of a property that the rule has declared
/// before; the first declaration of a property is never reported.
pub fn duplicate_declaration(rule: &Rule, _location: &Location) -> (r: Vec<LintError>)
    ensures
        diagnostics(r@) == duplicate_diagnostics(*rule),
{
    let mut errors: Vec<LintError> = Vec::new();
    let ghost step = duplicate_step(rule.selector@);
    let mut i: usize = 0;
    while i < rule.declaration.len()
        invariant
            i <= rule.declaration@.len(),
            step == duplicate_step(rule.selector@),
            diagnostics(errors@) == per_declaration(rule.declaration@.take(i as int), step),
        decreases rule.declaration.len() - i,
    {
        let d = &rule.declaration[i];
        proof {
            lemma_per_declaration_step(rule.declaration@, step, i as int);
        }
        if declared_before(&rule.declaration, i, d.name.as_str()) {
            let e = LintError {
                selector: rule.selector.clone(),
                property: d.name.clone(),
                message: String::from_str("<- duplicate property found."),
                kind: PrettystrictError::DuplicateProperty,
            };
            proof {
                lemma_diagnostics_push(errors@, e);
                assert(seq![e@] == step(rule.declaration@.take(i as int), *d));
            }
            errors.push(e);
        } else {
            proof {
                assert(step(rule.declaration@.take(i as int), *d) =~= Seq::empty());
            }
        }
        i = i + 1;
    }
    proof {
        assert(rule.declaration@.take(i as int) =~= rule.declaration@);
    }
    errors
}

/// A diagnostic on a declaration that overrides or breaks the order of
/// another.
pub open spec fn override_error(selector: Seq<char>, property: Seq<char>, message: Seq<char>) -> Diagnostic {
    Diagnostic { selector, property, message, kind: ErrorKind::ProperyOverride }
}

/// What declaration `d` overrides in one shorthand family: the shorthand,
/// where `d` is one of its longhands and the shorthand was declared before
/// it; and each longhand declared before it, where `d` is the shorthand.
pub open spec fn family_diagnostics(
    selector: Seq<char>,
    d: Property,
    seen: Seq<Seq<char>>,
    shorthand: Seq<char>,
    longhands: Seq<Seq<char>>,
) -> Seq<Diagnostic> {
    (if longhands.contains(d.name@) && seen.contains(shorthand) {
        seq![
            override_error(
                selector,
                d.name@,
                "\u{2018}"@ + d.name@ + "\u{2019} overrides previously defined shorthand \u{2018}"@
                    + shorthand + "\u{2019}"@,
            ),
        ]
    } else {
        Seq::empty()
    }) + (if shorthand == d.name@ {
        longhands.filter_map(
            |l: Seq<char>|
                if seen.contains(l) {
                    Some(
                        override_error(
                            selector,
                            d.name@,
                            "\u{2018}"@ + shorthand
                                + "\u{2019} overrides previously defined longhand \u{2018}"@ + l
                                + "\u{2019}"@,
                        ),
                    )
                } else {
                    None
                },
        )
    } else {
        Seq::empty()
    })
}

/// What declaration `d` overrides, family by family in the order of the
/// shorthand map.
pub open spec fn families_diagnostics(
    selector: Seq<char>,
    d: Property,
    seen: Seq<Seq<char>>,
    families: Seq<(String, Vec<String>)>,
) -> Seq<Diagnostic>
    decreases families.len(),
{
    if families.len() == 0 {
        Seq::empty()
    } else {
        families_diagnostics(selector, d, seen, families.drop_last()) + family_diagnostics(
            selector,
            d,
            seen,
            families.last().0@,
            views(families.last().1@),
        )
    }
}

/// What `shorthand_detection` reports of one declaration.
pub open spec fn shorthand_step(selector: Seq<char>, known: ValueList) -> spec_fn(
    Seq<Property>,
    Property,
) -> Seq<Diagnostic> {
    |before: Seq<Property>, d: Property|
        match known.shorthands {
            Some(families) => families_diagnostics(selector, d, names(before), families@),
            None => Seq::empty(),
        }
}

/// The diagnostics of `shorthand_detection`.
pub open spec fn shorthand_diagnostics(rule: Rule, known: ValueList) -> Seq<Diagnostic> {
    per_declaration(rule.declaration@, shorthand_step(rule.selector@, known))
}

fn override_error_of(selector: &String, d: &Property, message: String) -> (r: LintError)
    ensures
        r@ == override_error(selector@, d.name@, message@),
{
    LintError {
        selector: selector.clone(),
        property: d.name.clone(),
        message,
        kind: PrettystrictError::ProperyOverride,
    }
}

/// What declaration `decls[i]` overrides in one family.
fn family_errors(
    selector: &String,
    decls: &Vec<Property>,
    i: usize,
    shorthand: &String,
    longhands: &Vec<String>,
) -> (r: Vec<LintError>)
    requires
        i < decls@.len(),
    ensures
        diagnostics(r@) == family_diagnostics(
            selector@,
            decls@[i as int],
            names(decls@.take(i as int)),
            shorthand@,
            views(longhands@),
        ),
{
    let d = &decls[i];
    let ghost seen = names(decls@.take(i as int));
    let mut errors: Vec<LintError> = Vec::new();
    if contains_string(longhands, d.name.as_str()) && declared_before(
        decls,
        i,
        shorthand.as_str(),
    ) {
        let m = concat5(
            "\u{2018}",
            d.name.as_str(),
            "\u{2019} overrides previously defined shorthand \u{2018}",
            shorthand.as_str(),
            "\u{2019}",
        );
        errors.push(override_error_of(selector, d, m));
    }
    let ghost first = diagnostics(errors@);
    let ghost ls = views(longhands@);
    let ghost pick = |l: Seq<char>|
        if seen.contains(l) {
            Some(
                override_error(
                    selector@,
                    d.name@,
                    "\u{2018}"@ + shorthand@ + "\u{2019} overrides previously defined longhand \u{2018}"@
                        + l + "\u{2019}"@,
                ),
            )
        } else {
            None
        };
    if same_text(shorthand.as_str(), d.name.as_str()) {
        let mut j: usize = 0;
        while j < longhands.len()
            invariant
                j <= longhands@.len(),
                i < decls@.len(),
                d == decls@[i as int],
                seen == names(decls@.take(i as int)),
                ls == views(longhands@),
                pick == (|l: Seq<char>|
                    if seen.contains(l) {
                        Some(
                            override_error(
                                selector@,
                                d.name@,
                                "\u{2018}"@ + shorthand@
                                    + "\u{2019} overrides previously defined longhand \u{2018}"@ + l
                                    + "\u{2019}"@,
                            ),
                        )
                    } else {
                        None
                    }),
                diagnostics(errors@) == first + ls.take(j as int).filter_map(pick),
            decreases longhands.len() - j,
        {
            proof {
                assert(ls.take(j + 1).drop_last() =~= ls.take(j as int));
            }
            if declared_before(decls, i, longhands[j].as_str()) {
                let m = concat5(
                    "\u{2018}",
                    shorthand.as_str(),
                    "\u{2019} overrides previously defined longhand \u{2018}",
                    longhands[j].as_str(),
                    "\u{2019}",
                );
                let e = override_error_of(selector, d, m);
                proof {
                    lemma_diagnostics_push(errors@, e);
                }
                errors.push(e);
            }
            j = j + 1;
        }
        proof {
            assert(ls.take(j as int) =~= ls);
        }
    }
    proof {
        assert(diagnostics(errors@) =~= family_diagnostics(
            selector@,
            decls@[i as int],
            seen,
            shorthand@,
            ls,
        ));
    }
    errors
}

/// What declaration `decls[i]` overrides, family by family.
fn override_errors(
    selector: &String,
    decls: &Vec<Property>,
    i: usize,
    families: &Vec<(String, Vec<String>)>,
) -> (r: Vec<LintError>)
    requires
        i < decls@.len(),
    ensures
        diagnostics(r@) == families_diagnostics(
            selector@,
            decls@[i as int],
            names(decls@.take(i as int)),
            families@,
        ),
{
    let mut errors: Vec<LintError> = Vec::new();
    let mut k: usize = 0;
    while k < families.len()
        invariant
            k <= families@.len(),
            i < decls@.len(),
            diagnostics(errors@) == families_diagnostics(
                selector@,
                decls@[i as int],
                names(decls@.take(i as int)),
                families@.take(k as int),
            ),
        decreases families.len() - k,
    {
        let mut more = family_errors(selector, decls, i, &families[k].0, &families[k].1);
        proof {
            assert(families@.take(k + 1).drop_last() =~= families@.take(k as int));
            lemma_diagnostics_add(errors@, more@);
        }
        errors.append(&mut more);
        k = k + 1;
    }
    proof {
        assert(families@.take(k as int) =~= families@);
    }
    errors
}

/// Reports, in declaration order, each longhand declared after its
/// shorthand and each shorthand declared after some of its longhands (one
/// diagnostic per such longhand), by the shorthand map of `known_values`.
pub fn shorthand_detection(rule: &Rule, known_values: &ValueList) -> (r: Vec<LintError>)
    ensures
        diagnostics(r@) == shorthand_diagnostics(*rule, *known_values),
{
    let mut errors: Vec<LintError> = Vec::new();
    let ghost step = shorthand_step(rule.selector@, *known_values);
    let mut i: usize = 0;
    while i < rule.declaration.len()
        invariant
            i <= rule.declaration@.len(),
            step == shorthand_step(rule.selector@, *known_values),
            diagnostics(errors@) == per_declaration(rule.declaration@.take(i as int), step),
        decreases rule.declaration.len() - i,
    {
        proof {
            lemma_per_declaration_step(rule.declaration@, step, i as int);
        }
        match &known_values.shorthands {
            Some(families) => {
                let mut more = override_errors(&rule.selector, &rule.declaration, i, families);
                proof {
                    lemma_diagnostics_add(errors@, more@);
                }
                errors.append(&mut more);
            },
            None => {
                proof {
                    assert(errors@ + Seq::<LintError>::empty() =~= errors@);
                    assert(per_declaration(rule.declaration@.take(i + 1), step) =~= per_declaration(
                        rule.declaration@.take(i as int),
                        step,
                    ));
                }
            },
        }
        i = i + 1;
    }
    proof {
        assert(rule.declaration@.take(i as int) =~= rule.declaration@);
    }
    errors
}

/// Where `name` stands in the canonical order: `display`, `position`,
/// `top`, `right`, `bottom`, `left`, `z-index`, `color`, `background`.
pub open spec fn order_rank(name: Seq<char>) -> Option<nat> {
    if name == "display"@ {
        Some(0)
    } else if name == "position"@ {
        Some(1)
    } else if name == "top"@ {
        Some(2)
    } else if name == "right"@ {
        Some(3)
    } else if name == "bottom"@ {
        Some(4)
    } else if name == "left"@ {
        Some(5)
    } else if name == "z-index"@ {
        Some(6)
    } else if name == "color"@ {
        Some(7)
    } else if name == "background"@ {
        Some(8)
    } else {
        None
    }
}

/// The highest rank among the declarations of `decls` that have one.
pub open spec fn highest_rank(decls: Seq<Property>) -> Option<nat>
    decreases decls.len(),
{
    if decls.len() == 0 {
        None
    } else {
        let before = highest_rank(decls.drop_last());
        match order_rank(decls.last().name@) {
            Some(r) => match before {
                Some(m) => Some(if r > m {
                    r
                } else {
                    m
                }),
                None => Some(r),
            },
            None => before,
        }
    }
}

/// What `check_order` reports of one declaration: a rank below one seen
/// before it.
pub open spec fn order_step(selector: Seq<char>) -> spec_fn(Seq<Property>, Property) -> Seq<
    Diagnostic,
> {
    |before: Seq<Property>, d: Property|
        match (order_rank(d.name@), highest_rank(before)) {
            (Some(r), Some(m)) => if r < m {
                seq![override_error(selector, d.name@, "invalid property order found."@)]
            } else {
                Seq::empty()
            },
            _ => Seq::empty(),
        }
}

/// The diagnostics of `check_order`.
pub open spec fn order_diagnostics(rule: Rule) -> Seq<Diagnostic> {
    per_declaration(rule.declaration@, order_step(rule.selector@))
}

/// The rank of `name` in the canonical order.
pub fn rank_of(name: &str) -> (r: Option<usize>)
    ensures
        match r {
            Some(k) => order_rank(name@) == Some(k as nat),
            None => order_rank(name@) is None,
        },
{
    if same_text(name, "display") {
        Some(0)
    } else if same_text(name, "position") {
        Some(1)
    } else if same_text(name, "top") {
        Some(2)
    } else if same_text(name, "right") {
        Some(3)
    } else if same_text(name, "bottom") {
        Some(4)
    } else if same_text(name, "left") {
        Some(5)
    } else if same_text(name, "z-index") {
        Some(6)
    } else if same_text(name, "color") {
        Some(7)
    } else if same_text(name, "background") {
        Some(8)
    } else {
        None
    }
}

/// Reports each declaration whose property ranks, in the canonical order,
/// below a property declared before it; properties outside that order are
/// skipped.
pub fn check_order(rule: &Rule) -> (r: Vec<LintError>)
    ensures
        diagnostics(r@) == order_diagnostics(*rule),
{
    let mut errors: Vec<LintError> = Vec::new();
    let ghost step = order_step(rule.selector@);
    let mut highest: Option<usize> = None;
    let mut i: usize = 0;
    while i < rule.declaration.len()
        invariant
            i <= rule.declaration@.len(),
            step == order_step(rule.selector@),
            match highest {
                Some(m) => highest_rank(rule.declaration@.take(i as int)) == Some(m as nat),
                None => highest_rank(rule.declaration@.take(i as int)) is None,
            },
            diagnostics(errors@) == per_declaration(rule.declaration@.take(i as int), step),
        decreases rule.declaration.len() - i,
    {
        let d = &rule.declaration[i];
        proof {
            lemma_per_declaration_step(rule.declaration@, step, i as int);
            assert(rule.declaration@.take(i + 1).drop_last() =~= rule.declaration@.take(i as int));
        }
        match rank_of(d.name.as_str()) {
            Some(r) => {
                match highest {
                    Some(m) => {
                        if r < m {
                            let e = LintError {
                                selector: rule.selector.clone(),
                                property: d.name.clone(),
                                message: String::from_str("invalid property order found."),
                                kind: PrettystrictError::ProperyOverride,
                            };
                            proof {
                                lemma_diagnostics_push(errors@, e);
                                assert(seq![e@] == step(rule.declaration@.take(i as int), *d));
                            }
                            errors.push(e);
                        } else {
                            proof {
                                assert(step(rule.declaration@.take(i as int), *d) =~= Seq::empty());
                            }
                        }
                        if r > m {
                            highest = Some(r);
                        }
                    },
                    None => {
                        proof {
                            assert(step(rule.declaration@.take(i as int), *d) =~= Seq::empty());
                        }
                        highest = Some(r);
                    },
                }
            },
            None => {
                proof {
                    assert(step(rule.declaration@.take(i as int), *d) =~= Seq::empty());
                }
            },
        }
        i = i + 1;
    }
    proof {
        assert(rule.declaration@.take(i as int) =~= rule.declaration@);
    }
    errors
}

} // verus!
