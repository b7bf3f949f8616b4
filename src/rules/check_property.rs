//! Rules as the parser hands them over, the property catalog, and the
//! existence checks for properties and at-rules.
use vstd::prelude::*;

use crate::error::{Diagnostic, ErrorKind, LintError, PrettystrictError, diagnostics};
use crate::text::{contains_string, same_text, views};

verus! {

/// One `name: value` declaration.
#[derive(Clone, Debug, PartialEq, Eq)]
pub struct Property {
    pub name: String,
    pub value: String,
}

/// A selector with its declarations, in source order, and the at-rules that
/// enclose it.
#[derive(Clone, Debug, PartialEq, Eq)]
pub struct Rule {
    pub selector: String,
    pub declaration: Vec<Property>,
    pub at_rule: Vec<String>,
}

/// What a `Rule` holds, as characters.
pub struct RuleView {
    pub selector: Seq<char>,
    pub declarations: Seq<(Seq<char>, Seq<char>)>,
    pub at_rules: Seq<Seq<char>>,
}

impl View for Property {
    type V = (Seq<char>, Seq<char>);

    open spec fn view(&self) -> (Seq<char>, Seq<char>) {
        (self.name@, self.value@)
    }
}

impl View for Rule {
    type V = RuleView;

    open spec fn view(&self) -> RuleView {
        RuleView {
            selector: self.selector@,
            declarations: self.declaration@.map_values(|d: Property| d@),
            at_rules: views(self.at_rule@),
        }
    }
}

/// The known property names and at-rules.
#[derive(Clone, Debug, PartialEq, Eq)]
pub struct PropertyList {
    pub properties: Vec<String>,
    pub at_rules: Vec<String>,
}

/// The diagnostics of a check that looks at the declarations one by one, in
/// order: `step(before, d)` gives those of declaration `d`, where `before`
/// holds the declarations ahead of it.
pub open spec fn per_declaration(
    decls: Seq<Property>,
    step: spec_fn(Seq<Property>, Property) -> Seq<Diagnostic>,
) -> Seq<Diagnostic>
    decreases decls.len(),
{
    if decls.len() == 0 {
        Seq::empty()
    } else {
        per_declaration(decls.drop_last(), step) + step(decls.drop_last(), decls.last())
    }
}

/// One more declaration adds its own diagnostics at the end.
pub proof fn lemma_per_declaration_step(
    decls: Seq<Property>,
    step: spec_fn(Seq<Property>, Property) -> Seq<Diagnostic>,
    i: int,
)
    requires
        0 <= i < decls.len(),
    ensures
        per_declaration(decls.take(i + 1), step) == per_declaration(decls.take(i), step) + step(
            decls.take(i),
            decls[i],
        ),
{
    assert(decls.take(i + 1).drop_last() =~= decls.take(i));
}

/// Pushing `e` onto `v` adds its view to the diagnostics of `v`.
pub proof fn lemma_diagnostics_push(v: Seq<LintError>, e: LintError)
    ensures
        diagnostics(v.push(e)) == diagnostics(v).push(e@),
{
    assert(diagnostics(v.push(e)) =~= diagnostics(v).push(e@));
}

/// Concatenation commutes with taking views.
pub proof fn lemma_diagnostics_add(a: Seq<LintError>, b: Seq<LintError>)
    ensures
        diagnostics(a + b) == diagnostics(a) + diagnostics(b),
{
    assert(diagnostics(a + b) =~= diagnostics(a) + diagnostics(b));
}

/// The diagnostic for a declaration of an unknown property.
pub open spec fn unknown_property(selector: Seq<char>, name: Seq<char>) -> Diagnostic {
    Diagnostic {
        selector,
        property: name,
        message: name + " is unknown"@,
        kind: ErrorKind::UnknownProperty(name),
    }
}

/// What `check_props` reports of one declaration.
pub open spec fn property_step(selector: Seq<char>, known: PropertyList) -> spec_fn(
    Seq<Property>,
    Property,
) -> Seq<Diagnostic> {
    |before: Seq<Property>, d: Property|
        if views(known.properties@).contains(d.name@) {
            Seq::empty()
        } else {
            seq![unknown_property(selector, d.name@)]
        }
}

/// One diagnostic for each declaration whose property the catalog lacks.
pub open spec fn property_diagnostics(rule: Rule, known: PropertyList) -> Seq<Diagnostic> {
    per_declaration(rule.declaration@, property_step(rule.selector@, known))
}

/// Reports each declaration whose property is not in `known_props`.
pub fn check_props(rule: &Rule, known_props: &PropertyList) -> (r: Vec<LintError>)
    ensures
        diagnostics(r@) == property_diagnostics(*rule, *known_props),
{
    let mut errors: Vec<LintError> = Vec::new();
    let ghost step = property_step(rule.selector@, *known_props);
    let mut i: usize = 0;
    while i < rule.declaration.len()
        invariant
            i <= rule.declaration@.len(),
            step == property_step(rule.selector@, *known_props),
            diagnostics(errors@) == per_declaration(rule.declaration@.take(i as int), step),
        decreases rule.declaration.len() - i,
    {
        let declaration = &rule.declaration[i];
        proof {
            lemma_per_declaration_step(rule.declaration@, step, i as int);
        }
        if !contains_string(&known_props.properties, declaration.name.as_str()) {
            let mut message = declaration.name.clone();
            message.append(" is unknown");
            let e = LintError {
                selector: rule.selector.clone(),
                property: declaration.name.clone(),
                message,
                kind: PrettystrictError::UnknownProperty(declaration.name.clone()),
            };
            proof {
                lemma_diagnostics_push(errors@, e);
                assert(e@ == unknown_property(rule.selector@, declaration.name@));
                assert(seq![e@] == step(rule.declaration@.take(i as int), *declaration));
            }
            errors.push(e);
        } else {
            proof {
                assert(step(rule.declaration@.take(i as int), *declaration) =~= Seq::empty());
            }
        }
        i = i + 1;
    }
    proof {
        assert(rule.declaration@.take(i as int) =~= rule.declaration@);
    }
    errors
}

/// An at-rule name with its leading `@`, added where it is missing.
pub open spec fn with_at(s: Seq<char>) -> Seq<char> {
    if s.len() > 0 && s[0] == '@' {
        s
    } else {
        seq!['@'] + s
    }
}

/// Whether the catalog knows the at-rule `name`; its entries are compared
/// with their leading `@` too.
pub open spec fn knows_at_rule(known: PropertyList, name: Seq<char>) -> bool {
    views(known.at_rules@).map_values(|a: Seq<char>| with_at(a)).contains(name)
}

/// The diagnostic for an unknown at-rule.
pub open spec fn unknown_at_rule(name: Seq<char>) -> Diagnostic {
    Diagnostic {
        selector: Seq::empty(),
        property: name,
        message: "Unknown at-rule: "@ + name,
        kind: ErrorKind::UnknownProperty(name),
    }
}

/// What `check_at_rule` reports of one enclosing at-rule.
pub open spec fn at_rule_step(known: PropertyList) -> spec_fn(Seq<char>) -> Option<Diagnostic> {
    |a: Seq<char>|
        if knows_at_rule(known, with_at(a)) {
            None
        } else {
            Some(unknown_at_rule(with_at(a)))
        }
}

/// One diagnostic for each enclosing at-rule that the catalog lacks.
pub open spec fn at_rule_diagnostics(rule: Rule, known: PropertyList) -> Seq<Diagnostic> {
    views(rule.at_rule@).filter_map(at_rule_step(known))
}

/// `s` with a leading `@`, added where it is missing.
pub fn with_at_sign(s: &str) -> (r: String)
    ensures
        r@ == with_at(s@),
{
    if s.unicode_len() > 0 && s.get_char(0) == '@' {
        String::from_str(s)
    } else {
        let mut r = String::from_str("@");
        proof {
            reveal_strlit("@");
        }
        r.append(s);
        r
    }
}

fn knows_at(known: &PropertyList, name: &str) -> (r: bool)
    ensures
        r == knows_at_rule(*known, name@),
{
    let ghost norm = views(known.at_rules@).map_values(|a: Seq<char>| with_at(a));
    let mut i: usize = 0;
    while i < known.at_rules.len()
        invariant
            i <= known.at_rules@.len(),
            norm == views(known.at_rules@).map_values(|a: Seq<char>| with_at(a)),
            forall|k: int| 0 <= k < i ==> norm[k] != name@,
        decreases known.at_rules.len() - i,
    {
        let entry = with_at_sign(known.at_rules[i].as_str());
        if same_text(entry.as_str(), name) {
            proof {
                assert(norm[i as int] == name@);
            }
            return true;
        }
        i = i + 1;
    }
    false
}

/// Reports each enclosing at-rule of `rule` that `known_props` lacks.
pub fn check_at_rule(rule: &Rule, known_props: &PropertyList) -> (r: Vec<LintError>)
    ensures
        diagnostics(r@) == at_rule_diagnostics(*rule, *known_props),
{
    let mut errors: Vec<LintError> = Vec::new();
    let ghost names = views(rule.at_rule@);
    let ghost step = at_rule_step(*known_props);
    let mut i: usize = 0;
    while i < rule.at_rule.len()
        invariant
            i <= rule.at_rule@.len(),
            names == views(rule.at_rule@),
            step == at_rule_step(*known_props),
            diagnostics(errors@) == names.take(i as int).filter_map(step),
        decreases rule.at_rule.len() - i,
    {
        let at_rule_with_at = with_at_sign(rule.at_rule[i].as_str());
        proof {
            assert(names.take(i + 1).drop_last() =~= names.take(i as int));
        }
        if !knows_at(known_props, at_rule_with_at.as_str()) {
            let mut message = String::from_str("Unknown at-rule: ");
            message.append(at_rule_with_at.as_str());
            let e = LintError {
                selector: String::new(),
                property: at_rule_with_at.clone(),
                message,
                kind: PrettystrictError::UnknownProperty(at_rule_with_at),
            };
            proof {
                lemma_diagnostics_push(errors@, e);
            }
            errors.push(e);
        }
        i = i + 1;
    }
    proof {
        assert(names.take(i as int) =~= names);
    }
    errors
}

} // verus!
