//! From parsed style sheets to rules: the rule collector, which gives each
//! rule the at-rules that enclose it, and a line-based reader for text that
//! the full parser rejects.
use vstd::prelude::*;

use crate::error::LintError;
use crate::rules::check_property::{Property, Rule, RuleView};
use crate::text::{chars_of, lemma_trim_len, slice_string, trim, trim_string, views};

verus! {

/// Where `c` first stands in `s`; the length of `s` where it does not.
pub open spec fn first_index(s: Seq<char>, c: char) -> nat
    decreases s.len(),
{
    if s.len() == 0 {
        0
    } else if s[0] == c {
        0
    } else {
        1 + first_index(s.drop_first(), c)
    }
}

/// The lines of `s`: the pieces between its line feeds.
pub open spec fn lines(s: Seq<char>) -> Seq<Seq<char>>
    decreases s.len(),
{
    let k = first_index(s, '\n') as int;
    if k >= s.len() {
        seq![s]
    } else {
        seq![s.take(k)] + lines(s.skip(k + 1))
    }
}

proof fn lemma_first_index_skip(s: Seq<char>, c: char, i: int)
    requires
        0 <= i <= s.len(),
        forall|k: int| 0 <= k < i ==> s[k] != c,
    ensures
        first_index(s, c) == i + first_index(s.skip(i), c),
    decreases i,
{
    if i > 0 {
        assert(s.drop_first().skip(i - 1) =~= s.skip(i));
        lemma_first_index_skip(s.drop_first(), c, i - 1);
    } else {
        assert(s.skip(0) =~= s);
    }
}

/// The lines of `text`.
pub fn split_lines(text: &str) -> (r: Vec<String>)
    ensures
        views(r@) == lines(text@),
{
    let cs = chars_of(text);
    let n = cs.len();
    let mut out: Vec<String> = Vec::new();
    let mut start: usize = 0;
    let mut i: usize = 0;
    proof {
        assert(text@.skip(0) =~= text@);
        assert(views(out@) + lines(text@) =~= lines(text@));
    }
    while i < n
        invariant
            start <= i <= n == cs@.len(),
            cs@ == text@,
            forall|x: int| start <= x < i ==> cs@[x] != '\n',
            lines(text@) == views(out@) + lines(text@.skip(start as int)),
        decreases n - i,
    {
        if cs[i] == '\n' {
            let ghost rest = text@.skip(start as int);
            proof {
                lemma_first_index_skip(rest, '\n', i - start);
                assert(rest.skip(i - start) =~= text@.skip(i as int));
                assert(rest.skip(i - start + 1) =~= text@.skip(i + 1));
                assert(rest.take(i - start) =~= text@.subrange(start as int, i as int));
            }
            let line = slice_string(text, start, i);
            proof {
                assert(views(out@.push(line)) =~= views(out@) + seq![line@]);
            }
            out.push(line);
            start = i + 1;
        }
        i = i + 1;
    }
    let ghost rest = text@.skip(start as int);
    proof {
        lemma_first_index_skip(rest, '\n', n - start);
        assert(rest.skip(n - start) =~= Seq::<char>::empty());
        assert(rest =~= text@.subrange(start as int, n as int));
    }
    let line = slice_string(text, start, n);
    proof {
        assert(views(out@.push(line)) =~= views(out@) + seq![line@]);
    }
    out.push(line);
    out
}

/// Drops the `;` that end `s`.
pub open spec fn strip_semicolons(s: Seq<char>) -> Seq<char>
    decreases s.len(),
{
    if s.len() > 0 && s.last() == ';' {
        strip_semicolons(s.drop_last())
    } else {
        s
    }
}

/// A line read as `name: value`: the name and the value, trimmed, the value
/// without the `;` that end it.
pub open spec fn declaration_of(line: Seq<char>) -> Option<(Seq<char>, Seq<char>)> {
    let k = first_index(line, ':') as int;
    if k < line.len() {
        Some((trim(line.take(k)), strip_semicolons(trim(line.skip(k + 1)))))
    } else {
        None
    }
}

proof fn lemma_strip_semicolons_cut(s: Seq<char>, j: int)
    requires
        0 <= j <= s.len(),
        forall|k: int| j <= k < s.len() ==> s[k] == ';',
    ensures
        strip_semicolons(s) == strip_semicolons(s.take(j)),
    decreases s.len() - j,
{
    if j < s.len() {
        assert(s.drop_last().take(j) =~= s.take(j));
        lemma_strip_semicolons_cut(s.drop_last(), j);
    } else {
        assert(s.take(j) =~= s);
    }
}

/// Reads `decl` as `name: value`, split at its first `:`.
pub fn parse_declaration_simple(decl: &str) -> (r: Option<Property>)
    ensures
        match (r, declaration_of(decl@)) {
            (Some(p), Some((name, value))) => p.name@ == name && p.value@ == value,
            (None, None) => true,
            _ => false,
        },
{
    let cs = chars_of(decl);
    let n = cs.len();
    let mut k: usize = 0;
    while k < n && cs[k] != ':'
        invariant
            k <= n == cs@.len(),
            cs@ == decl@,
            forall|x: int| 0 <= x < k ==> cs@[x] != ':',
        decreases n - k,
    {
        k = k + 1;
    }
    proof {
        lemma_first_index_skip(decl@, ':', k as int);
        if k < n {
            assert(decl@.skip(k as int)[0] == ':');
        }
    }
    if k == n {
        return None;
    }
    let head = slice_string(decl, 0, k);
    let name = trim_string(head.as_str());
    let tail = slice_string(decl, k + 1, n);
    let trimmed = trim_string(tail.as_str());
    let vs = chars_of(trimmed.as_str());
    let mut j = vs.len();
    while j > 0 && vs[j - 1] == ';'
        invariant
            j <= vs@.len(),
            forall|x: int| j <= x < vs@.len() ==> vs@[x] == ';',
        decreases j,
    {
        j = j - 1;
    }
    proof {
        assert(decl@.subrange(0, k as int) =~= decl@.take(k as int));
        assert(decl@.subrange(k + 1, n as int) =~= decl@.skip(k + 1));
        lemma_strip_semicolons_cut(vs@, j as int);
        assert(trimmed@.subrange(0, j as int) =~= vs@.take(j as int));
    }
    let value = slice_string(trimmed.as_str(), 0, j);
    Some(Property { name, value })
}

/// Whether a trimmed line opens an at-rule.
pub open spec fn is_at_line(t: Seq<char>) -> bool {
    t.len() > 0 && t[0] == '@'
}

/// The trimmed lines of `css` that start with `@`, in order.
pub open spec fn at_lines(css: Seq<char>) -> Seq<Seq<char>> {
    lines(css).map_values(|l: Seq<char>| trim(l)).filter(|t: Seq<char>| is_at_line(t))
}

/// The lines of `css` that open an at-rule, trimmed.
pub fn extract_at_rules_simple(css: &str) -> (r: Vec<String>)
    ensures
        views(r@) == at_lines(css@),
{
    let all = split_lines(css);
    let ghost trimmed = lines(css@).map_values(|l: Seq<char>| trim(l));
    let ghost pred = |t: Seq<char>| is_at_line(t);
    let mut out: Vec<String> = Vec::new();
    let mut i: usize = 0;
    while i < all.len()
        invariant
            i <= all@.len(),
            views(all@) == lines(css@),
            trimmed == lines(css@).map_values(|l: Seq<char>| trim(l)),
            pred == (|t: Seq<char>| is_at_line(t)),
            views(out@) == trimmed.take(i as int).filter(pred),
        decreases all.len() - i,
    {
        let t = trim_string(all[i].as_str());
        proof {
            reveal(Seq::filter);
            assert(trimmed.take(i + 1).drop_last() =~= trimmed.take(i as int));
            assert(trimmed[i as int] == t@);
        }
        if t.unicode_len() > 0 && t.as_str().get_char(0) == '@' {
            proof {
                assert(views(out@.push(t)) =~= views(out@).push(t@));
            }
            out.push(t);
        }
        i = i + 1;
    }
    proof {
        assert(trimmed.take(i as int) =~= trimmed);
    }
    out
}

/// How many times `c` occurs in `s`.
pub open spec fn char_count(s: Seq<char>, c: char) -> nat
    decreases s.len(),
{
    if s.len() == 0 {
        0
    } else {
        char_count(s.drop_last(), c) + if s.last() == c {
            1nat
        } else {
            0nat
        }
    }
}

/// `s` without any `c`.
pub open spec fn without_char(s: Seq<char>, c: char) -> Seq<char>
    decreases s.len(),
{
    if s.len() == 0 {
        s
    } else if s.last() == c {
        without_char(s.drop_last(), c)
    } else {
        without_char(s.drop_last(), c).push(s.last())
    }
}

/// The sum of the lengths of `ls`.
pub open spec fn total_len(ls: Seq<Seq<char>>) -> nat
    decreases ls.len(),
{
    if ls.len() == 0 {
        0
    } else {
        total_len(ls.drop_last()) + ls.last().len()
    }
}

proof fn lemma_total_len_add(a: Seq<Seq<char>>, b: Seq<Seq<char>>)
    ensures
        total_len(a + b) == total_len(a) + total_len(b),
    decreases b.len(),
{
    if b.len() == 0 {
        assert(a + b =~= a);
    } else {
        assert((a + b).drop_last() =~= a + b.drop_last());
        lemma_total_len_add(a, b.drop_last());
    }
}

proof fn lemma_total_len_lines(s: Seq<char>)
    ensures
        total_len(lines(s)) <= s.len(),
    decreases s.len(),
{
    let k = first_index(s, '\n') as int;
    if k >= s.len() {
        assert(lines(s) == seq![s]);
        assert(seq![s].drop_last() =~= Seq::<Seq<char>>::empty());
        assert(total_len(seq![s]) == total_len(Seq::<Seq<char>>::empty()) + s.len());
    } else {
        assert(lines(s) == seq![s.take(k)] + lines(s.skip(k + 1)));
        lemma_total_len_lines(s.skip(k + 1));
        lemma_total_len_add(seq![s.take(k)], lines(s.skip(k + 1)));
        assert(seq![s.take(k)].drop_last() =~= Seq::<Seq<char>>::empty());
        assert(total_len(seq![s.take(k)]) == total_len(Seq::<Seq<char>>::empty()) + s.take(k).len());
    }
}

proof fn lemma_total_len_prefix(ls: Seq<Seq<char>>, i: int)
    requires
        0 <= i <= ls.len(),
    ensures
        total_len(ls.take(i)) <= total_len(ls),
    decreases ls.len() - i,
{
    if i < ls.len() {
        assert(ls.drop_last().take(i) =~= ls.take(i));
        lemma_total_len_prefix(ls.drop_last(), i);
    } else {
        assert(ls.take(i) =~= ls);
    }
}

/// Where the line reader stands after some lines: the rules it closed, the
/// rule it is reading, whether it is inside a block, and how many more `{`
/// than `}` it has met.
pub struct ReaderState {
    pub rules: Seq<RuleView>,
    pub current: Option<RuleView>,
    pub in_rule: bool,
    pub braces: int,
}

/// The line reader's state before any line.
pub open spec fn reader_start() -> ReaderState {
    ReaderState { rules: Seq::empty(), current: None, in_rule: false, braces: 0 }
}

/// What one line does to the line reader. A blank line does nothing. A
/// line with a `{` outside a block opens a rule whose selector is the line
/// without its braces; a line with a `}` that balances the braces closes
/// the open rule; a line with a `:` inside a block adds a declaration.
pub open spec fn reader_step(st: ReaderState, line: Seq<char>, at_rules: Seq<Seq<char>>) -> ReaderState {
    let t = trim(line);
    if t.len() == 0 {
        st
    } else {
        let braces = st.braces + char_count(t, '{') - char_count(t, '}');
        if char_count(t, '{') > 0 && !st.in_rule {
            ReaderState {
                rules: st.rules,
                current: Some(
                    RuleView {
                        selector: trim(without_char(t, '{')),
                        declarations: Seq::empty(),
                        at_rules,
                    },
                ),
                in_rule: true,
                braces,
            }
        } else if char_count(t, '}') > 0 && braces == 0 {
            ReaderState {
                rules: match st.current {
                    Some(r) => st.rules.push(r),
                    None => st.rules,
                },
                current: None,
                in_rule: false,
                braces,
            }
        } else if st.in_rule && char_count(t, ':') > 0 {
            ReaderState {
                rules: st.rules,
                current: match (st.current, declaration_of(t)) {
                    (Some(r), Some(d)) => Some(
                        RuleView {
                            selector: r.selector,
                            declarations: r.declarations.push(d),
                            at_rules: r.at_rules,
                        },
                    ),
                    _ => st.current,
                },
                in_rule: st.in_rule,
                braces,
            }
        } else {
            ReaderState { rules: st.rules, current: st.current, in_rule: st.in_rule, braces }
        }
    }
}

/// The line reader's state after `ls`.
pub open spec fn reader_run(ls: Seq<Seq<char>>, at_rules: Seq<Seq<char>>) -> ReaderState
    decreases ls.len(),
{
    if ls.len() == 0 {
        reader_start()
    } else {
        reader_step(reader_run(ls.drop_last(), at_rules), ls.last(), at_rules)
    }
}

/// The rules that the line reader closes in `css`; each is enclosed by
/// every at-rule line of `css`.
pub open spec fn fallback_rules(css: Seq<char>) -> Seq<RuleView> {
    reader_run(lines(css), at_lines(css)).rules
}

/// How many times `c` occurs in `cs`.
pub fn count_char(cs: &Vec<char>, c: char) -> (r: usize)
    ensures
        r == char_count(cs@, c),
        r <= cs@.len(),
{
    let mut n: usize = 0;
    let mut i: usize = 0;
    while i < cs.len()
        invariant
            i <= cs@.len(),
            n == char_count(cs@.take(i as int), c),
            n <= i,
        decreases cs.len() - i,
    {
        proof {
            assert(cs@.take(i + 1).drop_last() =~= cs@.take(i as int));
        }
        if cs[i] == c {
            n = n + 1;
        }
        i = i + 1;
    }
    proof {
        assert(cs@.take(i as int) =~= cs@);
    }
    n
}

/// `s` without any `c`.
pub fn remove_char(s: &str, c: char) -> (r: String)
    ensures
        r@ == without_char(s@, c),
{
    let cs = chars_of(s);
    let mut r = String::new();
    let mut i: usize = 0;
    while i < cs.len()
        invariant
            i <= cs@.len(),
            cs@ == s@,
            r@ == without_char(s@.take(i as int), c),
        decreases cs.len() - i,
    {
        proof {
            assert(s@.take(i + 1).drop_last() =~= s@.take(i as int));
        }
        if cs[i] != c {
            let one = slice_string(s, i, i + 1);
            r.append(one.as_str());
            proof {
                assert(one@ =~= seq![s@[i as int]]);
                assert(r@ =~= without_char(s@.take(i as int), c).push(s@[i as int]));
            }
        }
        i = i + 1;
    }
    proof {
        assert(s@.take(i as int) =~= s@);
    }
    r
}

/// A copy of `v`.
pub fn copy_strings(v: &Vec<String>) -> (r: Vec<String>)
    ensures
        views(r@) == views(v@),
{
    let mut r: Vec<String> = Vec::new();
    let mut i: usize = 0;
    while i < v.len()
        invariant
            i <= v@.len(),
            views(r@) == views(v@.take(i as int)),
        decreases v.len() - i,
    {
        let c = v[i].clone();
        proof {
            assert(c@ == v@[i as int]@);
            assert(views(r@.push(c)) =~= views(r@).push(c@));
            assert(v@.take(i + 1) =~= v@.take(i as int).push(v@[i as int]));
            assert(views(v@.take(i as int).push(v@[i as int])) =~= views(v@.take(i as int)).push(
                v@[i as int]@,
            ));
        }
        r.push(c);
        i = i + 1;
    }
    proof {
        assert(v@.take(i as int) =~= v@);
    }
    r
}

/// Reads `css` line by line, as `reader_step` says; never fails.
pub fn parse_css_fallback(css_content: &str) -> (r: Result<Vec<Rule>, LintError>)
    ensures
        match r {
            Ok(rules) => rules@.map_values(|x: Rule| x@) == fallback_rules(css_content@),
            Err(_) => false,
        },
{
    let total = chars_of(css_content);
    let total_count = total.len();
    let all = split_lines(css_content);
    let at_rules = extract_at_rules_simple(css_content);
    let ghost ls = lines(css_content@);
    let ghost ats = at_lines(css_content@);
    proof {
        lemma_total_len_lines(css_content@);
    }
    let mut rules: Vec<Rule> = Vec::new();
    let mut current: Option<Rule> = None;
    let mut in_rule = false;
    let mut brace_count: i128 = 0;
    let mut i: usize = 0;
    while i < all.len()
        invariant
            i <= all@.len(),
            views(all@) == ls,
            ls == lines(css_content@),
            views(at_rules@) == ats,
            total_len(ls) <= total@.len() == total_count,
            ({
                let st = reader_run(ls.take(i as int), ats);
                &&& rules@.map_values(|x: Rule| x@) == st.rules
                &&& match current {
                    Some(c) => st.current == Some(c@),
                    None => st.current is None,
                }
                &&& in_rule == st.in_rule
                &&& brace_count == st.braces
            }),
            -(total_len(ls.take(i as int)) as int) <= brace_count <= total_len(ls.take(i as int)),
        decreases all.len() - i,
    {
        let ghost before = reader_run(ls.take(i as int), ats);
        proof {
            assert(ls.take(i + 1).drop_last() =~= ls.take(i as int));
            lemma_total_len_prefix(ls, i + 1);
        }
        let t = trim_string(all[i].as_str());
        let tc = chars_of(t.as_str());
        if tc.len() > 0 {
            let opens = count_char(&tc, '{');
            let closes = count_char(&tc, '}');
            proof {
                assert(ls[i as int] == all@[i as int]@);
                lemma_trim_len(ls[i as int]);
                assert(ls.take(i + 1).last() == ls[i as int]);
            }
            brace_count = brace_count + opens as i128 - closes as i128;
            if opens > 0 && !in_rule {
                let selector = trim_string(remove_char(t.as_str(), '{').as_str());
                let rule = Rule {
                    selector,
                    declaration: Vec::new(),
                    at_rule: copy_strings(&at_rules),
                };
                proof {
                    assert(rule.declaration@.map_values(|d: Property| d@) =~= Seq::<
                        (Seq<char>, Seq<char>),
                    >::empty());
                }
                current = Some(rule);
                in_rule = true;
            } else if closes > 0 && brace_count == 0 {
                match current {
                    Some(rule) => {
                        proof {
                            assert(rules@.push(rule).map_values(|x: Rule| x@) =~= rules@.map_values(
                                |x: Rule| x@,
                            ).push(rule@));
                        }
                        rules.push(rule);
                    },
                    None => {},
                }
                current = None;
                in_rule = false;
            } else if in_rule && count_char(&tc, ':') > 0 {
                match current {
                    Some(mut rule) => {
                        match parse_declaration_simple(t.as_str()) {
                            Some(p) => {
                                proof {
                                    assert(rule.declaration@.push(p).map_values(|d: Property| d@)
                                        =~= rule.declaration@.map_values(|d: Property| d@).push(
                                        p@,
                                    ));
                                }
                                rule.declaration.push(p);
                            },
                            None => {},
                        }
                        current = Some(rule);
                    },
                    None => {
                        current = None;
                    },
                }
            }
        }
        i = i + 1;
    }
    proof {
        assert(ls.take(i as int) =~= ls);
    }
    Ok(rules)
}

/// One keyframe of a `@keyframes` block: its selector and declarations.
#[derive(Clone, Debug, PartialEq, Eq)]
pub struct Keyframe {
    pub selector: String,
    pub declarations: Vec<Property>,
}

/// A parsed rule of a style sheet, with what the rule collector reads of
/// it: selectors, queries and conditions printed as text, and the
/// declarations whose properties the collector knows.
#[derive(Debug, PartialEq, Eq)]
pub enum CssNode {
    Style { selector: String, declarations: Vec<Property> },
    Media { query: String, rules: Vec<CssNode> },
    Supports { condition: String, rules: Vec<CssNode> },
    /// `text` is the whole `@keyframes` block, printed.
    Keyframes { text: String, frames: Vec<Keyframe> },
    FontFace { declarations: Vec<Property> },
    Other,
}

/// The views of a sequence of declarations.
pub open spec fn declaration_views(decls: Seq<Property>) -> Seq<(Seq<char>, Seq<char>)> {
    decls.map_values(|d: Property| d@)
}

/// The views of a sequence of rules.
pub open spec fn rule_views(rules: Seq<Rule>) -> Seq<RuleView> {
    rules.map_values(|r: Rule| r@)
}

/// The rules that `node` yields inside the at-rules `stack`: a style rule
/// yields itself; `@media` and `@supports` yield what their rules yield,
/// inside one more at-rule; each keyframe yields a rule inside the
/// printed `@keyframes` block; a `@font-face` yields a rule of its own,
/// inside `@font-face` alone.
pub open spec fn node_rules(node: CssNode, stack: Seq<Seq<char>>) -> Seq<RuleView>
    decreases node, 0nat,
{
    match node {
        CssNode::Style { selector, declarations } => seq![
            RuleView {
                selector: selector@,
                declarations: declaration_views(declarations@),
                at_rules: stack,
            },
        ],
        CssNode::Media { query, rules } => nodes_rules(
            rules@,
            stack.push("@media "@ + query@),
            rules@.len(),
        ),
        CssNode::Supports { condition, rules } => nodes_rules(
            rules@,
            stack.push("@supports "@ + condition@),
            rules@.len(),
        ),
        CssNode::Keyframes { text, frames } => frames@.map_values(
            |f: Keyframe|
                RuleView {
                    selector: f.selector@,
                    declarations: declaration_views(f.declarations@),
                    at_rules: stack.push(text@),
                },
        ),
        CssNode::FontFace { declarations } => seq![
            RuleView {
                selector: Seq::empty(),
                declarations: declaration_views(declarations@),
                at_rules: seq!["@font-face"@],
            },
        ],
        CssNode::Other => Seq::empty(),
    }
}

/// The rules that the first `n` of `nodes` yield, in order.
pub open spec fn nodes_rules(nodes: Seq<CssNode>, stack: Seq<Seq<char>>, n: nat) -> Seq<RuleView>
    decreases nodes, n,
{
    if n == 0 || n > nodes.len() {
        Seq::empty()
    } else {
        nodes_rules(nodes, stack, (n - 1) as nat) + node_rules(nodes[n - 1], stack)
    }
}

/// A copy of `decls`.
pub fn copy_declarations(decls: &Vec<Property>) -> (r: Vec<Property>)
    ensures
        declaration_views(r@) == declaration_views(decls@),
{
    let mut r: Vec<Property> = Vec::new();
    let mut i: usize = 0;
    while i < decls.len()
        invariant
            i <= decls@.len(),
            declaration_views(r@) == declaration_views(decls@.take(i as int)),
        decreases decls.len() - i,
    {
        let d = Property { name: decls[i].name.clone(), value: decls[i].value.clone() };
        proof {
            assert(declaration_views(r@.push(d)) =~= declaration_views(r@).push(d@));
            assert(decls@.take(i + 1) =~= decls@.take(i as int).push(decls@[i as int]));
            assert(declaration_views(decls@.take(i as int).push(decls@[i as int]))
                =~= declaration_views(decls@.take(i as int)).push(decls@[i as int]@));
        }
        r.push(d);
        i = i + 1;
    }
    proof {
        assert(decls@.take(i as int) =~= decls@);
    }
    r
}

fn push_rule(
    rules: &mut Vec<Rule>,
    selector: String,
    declarations: &Vec<Property>,
    at_rule: Vec<String>,
)
    ensures
        rule_views(final(rules)@) == rule_views(old(rules)@).push(
            RuleView {
                selector: selector@,
                declarations: declaration_views(declarations@),
                at_rules: views(at_rule@),
            },
        ),
{
    let r = Rule { selector, declaration: copy_declarations(declarations), at_rule };
    proof {
        assert(rule_views(old(rules)@.push(r)) =~= rule_views(old(rules)@).push(r@));
    }
    rules.push(r);
}

/// Adds the rules that `rule` yields inside `current_at_rules` to `rules`;
/// `current_at_rules` ends as it began.
pub fn traverse_rule(rule: &CssNode, rules: &mut Vec<Rule>, current_at_rules: &mut Vec<String>)
    ensures
        rule_views(final(rules)@) == rule_views(old(rules)@) + node_rules(
            *rule,
            views(old(current_at_rules)@),
        ),
        final(current_at_rules)@ == old(current_at_rules)@,
    decreases rule,
{
    let ghost stack = views(current_at_rules@);
    match rule {
        CssNode::Style { selector, declarations } => {
            let at_rule = copy_strings(current_at_rules);
            push_rule(rules, selector.clone(), declarations, at_rule);
        },
        CssNode::Media { query, rules: nested } => {
            let mut context = String::from_str("@media ");
            context.append(query.as_str());
            traverse_nested(nested, context, rules, current_at_rules);
        },
        CssNode::Supports { condition, rules: nested } => {
            let mut context = String::from_str("@supports ");
            context.append(condition.as_str());
            traverse_nested(nested, context, rules, current_at_rules);
        },
        CssNode::Keyframes { text, frames } => {
            let ghost start = rule_views(rules@);
            let ghost f = |k: Keyframe|
                RuleView {
                    selector: k.selector@,
                    declarations: declaration_views(k.declarations@),
                    at_rules: stack.push(text@),
                };
            current_at_rules.push(text.clone());
            proof {
                assert(views(current_at_rules@) =~= stack.push(text@));
            }
            let mut i: usize = 0;
            while i < frames.len()
                invariant
                    i <= frames@.len(),
                    current_at_rules@ == old(current_at_rules)@.push(*text),
                    views(current_at_rules@) == stack.push(text@),
                    f == (|k: Keyframe|
                        RuleView {
                            selector: k.selector@,
                            declarations: declaration_views(k.declarations@),
                            at_rules: stack.push(text@),
                        }),
                    rule_views(rules@) == start + frames@.take(i as int).map_values(f),
                decreases frames.len() - i,
            {
                let at_rule = copy_strings(current_at_rules);
                push_rule(rules, frames[i].selector.clone(), &frames[i].declarations, at_rule);
                proof {
                    assert(frames@.take(i + 1).map_values(f) =~= frames@.take(i as int).map_values(
                        f,
                    ).push(f(frames@[i as int])));
                    assert(start + frames@.take(i + 1).map_values(f) =~= (start + frames@.take(
                        i as int,
                    ).map_values(f)).push(f(frames@[i as int])));
                }
                i = i + 1;
            }
            proof {
                assert(frames@.take(i as int) =~= frames@);
            }
            current_at_rules.pop();
            proof {
                assert(current_at_rules@ =~= old(current_at_rules)@);
            }
        },
        CssNode::FontFace { declarations } => {
            let mut at_rule: Vec<String> = Vec::new();
            at_rule.push(String::from_str("@font-face"));
            proof {
                assert(views(at_rule@) =~= seq!["@font-face"@]);
            }
            push_rule(rules, String::new(), declarations, at_rule);
        },
        CssNode::Other => {
            proof {
                assert(rule_views(rules@) + Seq::<RuleView>::empty() =~= rule_views(rules@));
            }
        },
    }
}

/// Adds the rules that `nested` yields inside `current_at_rules` and
/// `context` to `rules`.
fn traverse_nested(
    nested: &Vec<CssNode>,
    context: String,
    rules: &mut Vec<Rule>,
    current_at_rules: &mut Vec<String>,
)
    ensures
        rule_views(final(rules)@) == rule_views(old(rules)@) + nodes_rules(
            nested@,
            views(old(current_at_rules)@).push(context@),
            nested@.len(),
        ),
        final(current_at_rules)@ == old(current_at_rules)@,
    decreases nested, 0nat,
{
    let ghost stack = views(current_at_rules@).push(context@);
    let ghost start = rule_views(rules@);
    current_at_rules.push(context);
    proof {
        assert(views(current_at_rules@) =~= stack);
    }
    let mut i: usize = 0;
    while i < nested.len()
        invariant
            i <= nested@.len(),
            current_at_rules@ == old(current_at_rules)@.push(context),
            views(current_at_rules@) == stack,
            rule_views(rules@) == start + nodes_rules(nested@, stack, i as nat),
        decreases nested.len() - i,
    {
        traverse_rule(&nested[i], rules, current_at_rules);
        proof {
            assert(start + nodes_rules(nested@, stack, (i + 1) as nat) =~= start + nodes_rules(
                nested@,
                stack,
                i as nat,
            ) + node_rules(nested@[i as int], stack));
        }
        i = i + 1;
    }
    current_at_rules.pop();
    proof {
        assert(current_at_rules@ =~= old(current_at_rules)@);
    }
}

/// The rules of a parsed style sheet, in order, each with the at-rules
/// that enclose it.
pub fn collect_rules(sheet: &Vec<CssNode>) -> (r: Vec<Rule>)
    ensures
        rule_views(r@) == nodes_rules(sheet@, Seq::empty(), sheet@.len()),
{
    let mut rules: Vec<Rule> = Vec::new();
    let mut current_at_rules: Vec<String> = Vec::new();
    let mut i: usize = 0;
    proof {
        assert(rule_views(rules@) =~= Seq::<RuleView>::empty());
        assert(views(current_at_rules@) =~= Seq::<Seq<char>>::empty());
    }
    while i < sheet.len()
        invariant
            i <= sheet@.len(),
            current_at_rules@ == Seq::<String>::empty(),
            rule_views(rules@) == nodes_rules(sheet@, Seq::empty(), i as nat),
        decreases sheet.len() - i,
    {
        proof {
            assert(views(current_at_rules@) =~= Seq::<Seq<char>>::empty());
        }
        traverse_rule(&sheet[i], &mut rules, &mut current_at_rules);
        i = i + 1;
    }
    rules
}

/// The rules that the full parser gave for `css_content`; where it failed,
/// those that the line reader finds.
pub fn recover_with_fallback(parsed: Result<Vec<Rule>, LintError>, css_content: &str) -> (r: Result<
    Vec<Rule>,
    LintError,
>)
    ensures
        match parsed {
            Ok(rules) => r == Ok::<Vec<Rule>, LintError>(rules),
            Err(_) => match r {
                Ok(rules) => rule_views(rules@) == fallback_rules(css_content@),
                Err(_) => false,
            },
        },
{
    match parsed {
        Ok(rules) => Ok(rules),
        Err(_) => parse_css_fallback(css_content),
    }
}

} // verus!
