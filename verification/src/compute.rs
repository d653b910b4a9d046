//! The cascade resolver: stylesheet construction and per-element property
//! computation.
//!
//! Construction filters conditional groups against the environment,
//! expands selector lists, and sorts the flat rule list by ascending
//! specificity with a stable sort. Computation then selects matching
//! rules, orders their declarations (normal before `!important`, each tier
//! low-to-high specificity), captures custom properties, resolves `var()`
//! references, and folds everything into one record where the last
//! applied declaration wins.

use vstd::prelude::*;

use crate::ast;
use crate::ast::{raw_rules_view, lemma_raw_rules_view, RawRuleV, DeclV, RawStyleV};
use crate::element::{Element, ElementV};
use crate::media::{condition_matches, query_list_matches, ConditionV, Environment, EnvironmentV, SystemTheme};
use crate::properties::{apply_prop, interp_spec, ComputedProperties};
use crate::selector::{spec_specificity, selector_matches, CompiledSelector, SelectorPart, SelectorV};
use crate::values::var_name_of;
use crate::ast::MediaGroupV;

verus! {

/// One compiled rule: a selector paired with its declaration block.
#[derive(Debug)]
pub struct Rule {
    pub selector: CompiledSelector,
    pub declarations: Vec<ast::Declaration>,
    pub important_declarations: Vec<ast::Declaration>,
}

/// The mathematical shape of a compiled rule.
pub struct RuleV {
    pub selector: SelectorV,
    pub declarations: Seq<DeclV>,
    pub important_declarations: Seq<DeclV>,
}

impl DeepView for Rule {
    type V = RuleV;

    open spec fn deep_view(&self) -> RuleV {
        RuleV {
            selector: self.selector.deep_view(),
            declarations: self.declarations.deep_view(),
            important_declarations: self.important_declarations.deep_view(),
        }
    }
}

/// The sort key of a rule: its selector's specificity.
pub open spec fn rule_key(r: RuleV) -> u32 {
    spec_specificity(r.selector)
}

/// One compiled rule per selector of a style rule, in selector order.
pub open spec fn selectors_to_rules(s: RawStyleV) -> Seq<RuleV>
    decreases s.selectors.len(),
{
    if s.selectors.len() == 0 {
        Seq::empty()
    } else {
        selectors_to_rules(
            RawStyleV {
                selectors: s.selectors.subrange(0, s.selectors.len() - 1),
                ..s
            },
        ).push(
            RuleV {
                selector: s.selectors[s.selectors.len() - 1],
                declarations: s.declarations,
                important_declarations: s.important_declarations,
            },
        )
    }
}

/// The compiled rules one nested rule of a matching group contributes:
/// only plain style rules are kept, deeper groups are dropped.
pub open spec fn expand_nested(rs: Seq<RawRuleV>) -> Seq<RuleV>
    decreases rs.len(),
{
    if rs.len() == 0 {
        Seq::empty()
    } else {
        expand_nested(rs.subrange(0, rs.len() - 1)) + (match rs[rs.len() - 1] {
            RawRuleV::Style(s) => selectors_to_rules(s),
            _ => Seq::empty(),
        })
    }
}

/// The compiled rules one top-level rule contributes under the given
/// environment.
pub open spec fn expand_rule(r: RawRuleV, env: EnvironmentV) -> Seq<RuleV> {
    match r {
        RawRuleV::Style(s) => selectors_to_rules(s),
        RawRuleV::Media(m) => if query_list_matches(m.queries, env) {
            expand_nested(m.rules)
        } else {
            Seq::empty()
        },
        RawRuleV::Unsupported => Seq::empty(),
    }
}

/// The flat, unsorted rule list of a parsed stylesheet under the given
/// environment.
pub open spec fn expand_rules(rs: Seq<RawRuleV>, env: EnvironmentV) -> Seq<RuleV>
    decreases rs.len(),
{
    if rs.len() == 0 {
        Seq::empty()
    } else {
        expand_rules(rs.subrange(0, rs.len() - 1), env) + expand_rule(rs[rs.len() - 1], env)
    }
}

/// Insertion into a specificity-sorted list: the new rule lands after
/// every rule whose key is less than or equal to its own, so that earlier
/// rules of equal specificity stay first.
pub open spec fn insert_sorted(x: RuleV, s: Seq<RuleV>) -> Seq<RuleV>
    decreases s.len(),
{
    if s.len() == 0 {
        seq![x]
    } else if rule_key(x) < rule_key(s.last()) {
        insert_sorted(x, s.drop_last()).push(s.last())
    } else {
        s.push(x)
    }
}

/// Stable insertion sort by ascending specificity.
pub open spec fn sort_rules(s: Seq<RuleV>) -> Seq<RuleV>
    decreases s.len(),
{
    if s.len() == 0 {
        Seq::empty()
    } else {
        insert_sorted(s.last(), sort_rules(s.drop_last()))
    }
}

/// The whole of stylesheet construction: expansion, then the stable sort.
pub open spec fn build_spec(rs: Seq<RawRuleV>, env: EnvironmentV) -> Seq<RuleV> {
    sort_rules(expand_rules(rs, env))
}

/// `insert_sorted` keeps a sorted list sorted.
pub proof fn lemma_insert_sorted_sorted(x: RuleV, s: Seq<RuleV>)
    requires
        forall|i: int, j: int| 0 <= i <= j < s.len() ==> rule_key(#[trigger] s[i]) <= rule_key(
            #[trigger] s[j],
        ),
    ensures
        forall|i: int, j: int|
            0 <= i <= j < insert_sorted(x, s).len() ==> rule_key(
                #[trigger] insert_sorted(x, s)[i],
            ) <= rule_key(#[trigger] insert_sorted(x, s)[j]),
        insert_sorted(x, s).len() == s.len() + 1,
    decreases s.len(),
{
    let out = insert_sorted(x, s);
    if s.len() == 0 {
    } else if rule_key(x) < rule_key(s.last()) {
        let front = s.drop_last();
        assert forall|i: int, j: int|
            0 <= i <= j < front.len() implies rule_key(#[trigger] front[i]) <= rule_key(
            #[trigger] front[j],
        ) by {
            assert(front[i] == s[i]);
            assert(front[j] == s[j]);
        }
        lemma_insert_sorted_sorted(x, front);
        let inner = insert_sorted(x, front);
        assert forall|i: int, j: int|
            0 <= i <= j < out.len() implies rule_key(#[trigger] out[i]) <= rule_key(
            #[trigger] out[j],
        ) by {
            if j < out.len() - 1 {
                assert(out[i] == inner[i]);
                assert(out[j] == inner[j]);
            } else if i < out.len() - 1 {
                assert(out[i] == inner[i]);
                assert(out[j] == s.last());
                // every element of `inner` is either from `front` or is `x`,
                // and both are at most the last element's key
                lemma_insert_sorted_members(x, front, i);
            }
        }
    } else {
        assert forall|i: int, j: int|
            0 <= i <= j < out.len() implies rule_key(#[trigger] out[i]) <= rule_key(
            #[trigger] out[j],
        ) by {
            if j == out.len() - 1 {
                if i < out.len() - 1 {
                    assert(out[i] == s[i]);
                    assert(out[j] == x);
                    assert(rule_key(s[i]) <= rule_key(s[s.len() - 1]));
                }
            } else {
                assert(out[i] == s[i]);
                assert(out[j] == s[j]);
            }
        }
    }
}

/// Every element of an insertion result is the inserted rule or one of the
/// original rules.
pub proof fn lemma_insert_sorted_members(x: RuleV, s: Seq<RuleV>, i: int)
    requires
        0 <= i < insert_sorted(x, s).len(),
    ensures
        insert_sorted(x, s)[i] == x || exists|k: int|
            0 <= k < s.len() && #[trigger] s[k] == insert_sorted(x, s)[i],
    decreases s.len(),
{
    let out = insert_sorted(x, s);
    if s.len() == 0 {
    } else if rule_key(x) < rule_key(s.last()) {
        if i < out.len() - 1 {
            lemma_insert_sorted_members(x, s.drop_last(), i);
            if insert_sorted(x, s.drop_last())[i] != x {
                let k = choose|k: int|
                    0 <= k < s.drop_last().len() && #[trigger] s.drop_last()[k] == insert_sorted(
                        x,
                        s.drop_last(),
                    )[i];
                assert(s[k] == out[i]);
            }
        } else {
            assert(out[i] == s[s.len() - 1]);
        }
    } else {
        if i < out.len() - 1 {
            assert(out[i] == s[i]);
        }
    }
}

/// The sorted rule list is sorted by ascending specificity.
pub proof fn lemma_sort_rules_sorted(s: Seq<RuleV>)
    ensures
        sort_rules(s).len() == s.len(),
        forall|i: int, j: int|
            0 <= i <= j < sort_rules(s).len() ==> rule_key(#[trigger] sort_rules(s)[i])
                <= rule_key(#[trigger] sort_rules(s)[j]),
    decreases s.len(),
{
    if s.len() > 0 {
        lemma_sort_rules_sorted(s.drop_last());
        lemma_insert_sorted_sorted(s.last(), sort_rules(s.drop_last()));
    }
}

/// `insert_sorted` as an index computation: inserting at position `pos`,
/// where everything at or after `pos` has a strictly greater key and the
/// element before `pos` does not.
pub proof fn lemma_insert_sorted_at(x: RuleV, s: Seq<RuleV>, pos: int)
    requires
        0 <= pos <= s.len(),
        forall|j: int| pos <= j < s.len() ==> rule_key(x) < rule_key(#[trigger] s[j]),
        pos > 0 ==> rule_key(s[pos - 1]) <= rule_key(x),
    ensures
        insert_sorted(x, s) == s.subrange(0, pos) + seq![x] + s.subrange(pos, s.len() as int),
    decreases s.len(),
{
    if s.len() == 0 {
        assert(insert_sorted(x, s) =~= s.subrange(0, 0) + seq![x] + s.subrange(0, 0));
    } else if pos == s.len() {
        assert(rule_key(s[pos - 1]) <= rule_key(x));
        assert(s.last() == s[pos - 1]);
        assert(insert_sorted(x, s) == s.push(x));
        assert(s.push(x) =~= s.subrange(0, pos) + seq![x] + s.subrange(pos, s.len() as int));
    } else {
        assert(rule_key(x) < rule_key(s[s.len() - 1]));
        let front = s.drop_last();
        assert forall|j: int| pos <= j < front.len() implies rule_key(x) < rule_key(
            #[trigger] front[j],
        ) by {
            assert(front[j] == s[j]);
        }
        if pos > 0 {
            assert(front[pos - 1] == s[pos - 1]);
        }
        lemma_insert_sorted_at(x, front, pos);
        assert(insert_sorted(x, s) == insert_sorted(x, front).push(s.last()));
        assert((front.subrange(0, pos) + seq![x] + front.subrange(pos, front.len() as int)).push(
            s.last(),
        ) =~= s.subrange(0, pos) + seq![x] + s.subrange(pos, s.len() as int));
    }
}

/// A string copy whose relation to the original is known.
fn copy_string(s: &String) -> (r: String)
    ensures
        r@ == s@,
{
    s.as_str().to_owned()
}

/// A declaration copy whose relation to the original is known.
fn copy_decl(d: &ast::Declaration) -> (r: ast::Declaration)
    ensures
        r.deep_view() == d.deep_view(),
{
    ast::Declaration { name: copy_string(&d.name), value: copy_string(&d.value) }
}

/// A declaration-list copy whose relation to the original is known.
fn copy_decls(v: &Vec<ast::Declaration>) -> (r: Vec<ast::Declaration>)
    ensures
        r.deep_view() == v.deep_view(),
{
    let mut r: Vec<ast::Declaration> = Vec::new();
    let mut i: usize = 0;
    proof {
        assert(r.deep_view() =~= v.deep_view().take(0));
    }
    while i < v.len()
        invariant
            i <= v.len(),
            r.deep_view() == v.deep_view().take(i as int),
            r@.len() == i,
        decreases v.len() - i,
    {
        let ghost prev = r.deep_view();
        let d = copy_decl(&v[i]);
        let ghost dv = d.deep_view();
        r.push(d);
        i = i + 1;
        proof {
            assert(r.deep_view() =~= prev.push(dv));
            assert(v.deep_view()[i - 1] == v@[i - 1].deep_view());
            assert(r.deep_view() =~= v.deep_view().take(i as int));
        }
    }
    proof {
        assert(v.deep_view().take(v@.len() as int) =~= v.deep_view());
    }
    r
}

/// A component copy whose relation to the original is known.
fn copy_component(c: &SelectorPart) -> (r: SelectorPart)
    ensures
        r.deep_view() == c.deep_view(),
{
    match c {
        SelectorPart::LocalName(s) => SelectorPart::LocalName(copy_string(s)),
        SelectorPart::Id(s) => SelectorPart::Id(copy_string(s)),
        SelectorPart::Class(s) => SelectorPart::Class(copy_string(s)),
        SelectorPart::Universal => SelectorPart::Universal,
        SelectorPart::AttrExists(s) => SelectorPart::AttrExists(copy_string(s)),
        SelectorPart::AttrEquals(n, v) => SelectorPart::AttrEquals(copy_string(n), copy_string(v)),
        SelectorPart::AttrOther(s) => SelectorPart::AttrOther(copy_string(s)),
        SelectorPart::Pseudo(s) => SelectorPart::Pseudo(copy_string(s)),
        SelectorPart::PseudoElt(s) => SelectorPart::PseudoElt(copy_string(s)),
        SelectorPart::Root => SelectorPart::Root,
        SelectorPart::Unsupported => SelectorPart::Unsupported,
    }
}

/// A selector copy whose relation to the original is known.
fn copy_selector(s: &CompiledSelector) -> (r: CompiledSelector)
    ensures
        r.deep_view() == s.deep_view(),
{
    let mut comps: Vec<SelectorPart> = Vec::new();
    let mut i: usize = 0;
    proof {
        assert(comps.deep_view() =~= s.components.deep_view().take(0));
    }
    while i < s.components.len()
        invariant
            i <= s.components.len(),
            comps.deep_view() == s.components.deep_view().take(i as int),
            comps@.len() == i,
        decreases s.components.len() - i,
    {
        let ghost prev = comps.deep_view();
        let c = copy_component(&s.components[i]);
        let ghost cv = c.deep_view();
        comps.push(c);
        i = i + 1;
        proof {
            assert(comps.deep_view() =~= prev.push(cv));
            assert(s.components.deep_view()[i - 1] == s.components@[i - 1].deep_view());
            assert(comps.deep_view() =~= s.components.deep_view().take(i as int));
        }
    }
    proof {
        assert(s.components.deep_view().take(s.components@.len() as int)
            =~= s.components.deep_view());
    }
    CompiledSelector { components: comps }
}

/// Appends the compiled rules of one style rule, one per selector.
fn push_style(out: &mut Vec<Rule>, s: &ast::RawStyle)
    ensures
        final(out).deep_view() == old(out).deep_view() + selectors_to_rules(s.deep_view()),
{
    let ghost base = out.deep_view();
    let mut k: usize = 0;
    proof {
        let sv = RawStyleV { selectors: s.deep_view().selectors.subrange(0, 0), ..s.deep_view() };
        assert(selectors_to_rules(sv) =~= Seq::<RuleV>::empty());
        assert(base + selectors_to_rules(sv) =~= base);
    }
    while k < s.selectors.len()
        invariant
            k <= s.selectors.len(),
            out.deep_view() == base + selectors_to_rules(
                RawStyleV {
                    selectors: s.deep_view().selectors.subrange(0, k as int),
                    ..s.deep_view()
                },
            ),
        decreases s.selectors.len() - k,
    {
        let ghost prev = out.deep_view();
        let rule = Rule {
            selector: copy_selector(&s.selectors[k]),
            declarations: copy_decls(&s.declarations),
            important_declarations: copy_decls(&s.important_declarations),
        };
        let ghost rv = rule.deep_view();
        out.push(rule);
        k = k + 1;
        proof {
            let sv = s.deep_view();
            let cur = RawStyleV { selectors: sv.selectors.subrange(0, k as int), ..sv };
            let before = RawStyleV { selectors: sv.selectors.subrange(0, k - 1), ..sv };
            assert(cur.selectors.subrange(0, cur.selectors.len() - 1) =~= before.selectors);
            assert(RawStyleV {
                selectors: cur.selectors.subrange(0, cur.selectors.len() - 1),
                ..cur
            } == before);
            assert(cur.selectors[cur.selectors.len() - 1] == sv.selectors[k - 1]);
            assert(sv.selectors[k - 1] == s.selectors@[k - 1].deep_view());
            assert(rv == RuleV {
                selector: sv.selectors[k - 1],
                declarations: sv.declarations,
                important_declarations: sv.important_declarations,
            });
            assert(selectors_to_rules(cur) == selectors_to_rules(before).push(rv));
            assert(out.deep_view() =~= prev.push(rv));
            assert(prev.push(rv) =~= base + selectors_to_rules(cur));
        }
    }
    proof {
        let sv = s.deep_view();
        assert(sv.selectors.subrange(0, sv.selectors.len() as int) =~= sv.selectors);
        assert(RawStyleV { selectors: sv.selectors.subrange(0, sv.selectors.len() as int), ..sv }
            == sv);
    }
}

/// Inserts a rule into a specificity-sorted list, after every rule whose
/// specificity is less than or equal to its own.
fn insert_rule(out: &mut Vec<Rule>, r: Rule)
    ensures
        final(out).deep_view() == insert_sorted(r.deep_view(), old(out).deep_view()),
{
    let key = r.selector.specificity();
    let ghost rv = r.deep_view();
    let ghost outv = out.deep_view();
    let mut pos: usize = out.len();
    while pos > 0
        invariant_except_break
            pos <= out@.len(),
            outv == out.deep_view(),
            out@.len() == outv.len(),
            key == rule_key(rv),
            forall|j: int| pos <= j < outv.len() ==> rule_key(#[trigger] outv[j]) > key,
        ensures
            pos <= out@.len(),
            outv == out.deep_view(),
            out@.len() == outv.len(),
            key == rule_key(rv),
            forall|j: int| pos <= j < outv.len() ==> rule_key(#[trigger] outv[j]) > key,
            pos > 0 ==> rule_key(outv[pos - 1]) <= key,
        decreases pos,
    {
        let k = out[pos - 1].selector.specificity();
        proof {
            assert(outv[pos - 1] == out@[pos - 1].deep_view());
        }
        if k <= key {
            break;
        }
        pos = pos - 1;
    }
    proof {
        lemma_insert_sorted_at(rv, outv, pos as int);
    }
    out.insert(pos, r);
    proof {
        assert(out.deep_view() =~= outv.subrange(0, pos as int) + seq![rv] + outv.subrange(
            pos as int,
            outv.len() as int,
        ));
    }
}

/// Builds the flat, specificity-sorted rule list of a parsed stylesheet
/// under the given environment: conditional groups are filtered against
/// the environment, one nesting level of a matching group is kept, and
/// selector lists are expanded into one rule per selector.
pub fn pre_compute(rules: &Vec<ast::RawRule>, env: &Environment) -> (out: Vec<Rule>)
    ensures
        out.deep_view() == build_spec(raw_rules_view(rules@), env@),
{
    let mut flat: Vec<Rule> = Vec::new();
    let mut i: usize = 0;
    proof {
        lemma_raw_rules_view(rules@);
        assert(raw_rules_view(rules@.subrange(0, 0)) =~= Seq::<RawRuleV>::empty());
        assert(expand_rules(raw_rules_view(rules@).take(0), env@) =~= Seq::<RuleV>::empty());
        assert(flat.deep_view() =~= Seq::<RuleV>::empty());
    }
    while i < rules.len()
        invariant
            i <= rules.len(),
            flat.deep_view() == expand_rules(raw_rules_view(rules@).take(i as int), env@),
        decreases rules.len() - i,
    {
        proof {
            lemma_raw_rules_view(rules@);
            let whole = raw_rules_view(rules@);
            assert(whole.take(i + 1).drop_last() =~= whole.take(i as int));
            assert(whole.take(i + 1).last() == whole[i as int]);
            assert(whole.take(i + 1).subrange(0, whole.take(i + 1).len() - 1) =~= whole.take(
                i as int,
            ));
            assert(whole[i as int] == css_rule_view_of(rules, i as int));
        }
        match &rules[i] {
            ast::RawRule::Style(s) => {
                push_style(&mut flat, s);
            },
            ast::RawRule::Media(m) => {
                if crate::media::queries_match(&m.queries, env) {
                    expand_media_children(&mut flat, &m.rules);
                } else {
                }
            },
            ast::RawRule::Unsupported => {},
        }
        i = i + 1;
        proof {
            let whole = raw_rules_view(rules@);
            assert(flat.deep_view() =~= expand_rules(whole.take(i as int), env@));
        }
    }
    proof {
        assert(raw_rules_view(rules@).take(rules@.len() as int) =~= raw_rules_view(rules@));
    }
    let mut out: Vec<Rule> = Vec::new();
    let ghost flatv = flat.deep_view();
    let mut j: usize = 0;
    proof {
        assert(out.deep_view() =~= sort_rules(flatv.take(0)));
    }
    let total = flat.len();
    while j < total
        invariant
            j <= total,
            total == flat@.len(),
            flatv == flat.deep_view(),
            out.deep_view() == sort_rules(flatv.take(j as int)),
        decreases total - j,
    {
        let rule = copy_rule(&flat[j]);
        proof {
            assert(rule.deep_view() == flatv[j as int]);
            assert(flatv.take(j + 1).drop_last() =~= flatv.take(j as int));
            assert(flatv.take(j + 1).last() == flatv[j as int]);
        }
        insert_rule(&mut out, rule);
        j = j + 1;
    }
    proof {
        assert(flatv.take(total as int) =~= flatv);
    }
    out
}

/// The shape of one parsed rule by index; a helper for proofs.
pub open spec fn css_rule_view_of(rules: &Vec<ast::RawRule>, i: int) -> RawRuleV {
    ast::raw_rule_view(rules@[i])
}

/// A rule copy whose relation to the original is known.
fn copy_rule(r: &Rule) -> (out: Rule)
    ensures
        out.deep_view() == r.deep_view(),
{
    Rule {
        selector: copy_selector(&r.selector),
        declarations: copy_decls(&r.declarations),
        important_declarations: copy_decls(&r.important_declarations),
    }
}

/// Appends the style rules nested one level inside a matching group.
fn expand_media_children(out: &mut Vec<Rule>, rs: &Vec<ast::RawRule>)
    ensures
        final(out).deep_view() == old(out).deep_view() + expand_nested(raw_rules_view(rs@)),
{
    let ghost base = out.deep_view();
    let mut k: usize = 0;
    proof {
        lemma_raw_rules_view(rs@);
        assert(expand_nested(raw_rules_view(rs@).take(0)) =~= Seq::<RuleV>::empty());
        assert(base + expand_nested(raw_rules_view(rs@).take(0)) =~= base);
    }
    while k < rs.len()
        invariant
            k <= rs.len(),
            out.deep_view() == base + expand_nested(raw_rules_view(rs@).take(k as int)),
        decreases rs.len() - k,
    {
        proof {
            lemma_raw_rules_view(rs@);
            let whole = raw_rules_view(rs@);
            assert(whole.take(k + 1).drop_last() =~= whole.take(k as int));
            assert(whole.take(k + 1).subrange(0, whole.take(k + 1).len() - 1) =~= whole.take(
                k as int,
            ));
            assert(whole.take(k + 1).last() == whole[k as int]);
        }
        let ghost prev = out.deep_view();
        match &rs[k] {
            ast::RawRule::Style(s) => {
                push_style(out, s);
            },
            _ => {},
        }
        k = k + 1;
        proof {
            let whole = raw_rules_view(rs@);
            assert(out.deep_view() =~= base + expand_nested(whole.take(k as int)));
        }
    }
    proof {
        assert(raw_rules_view(rs@).take(rs@.len() as int) =~= raw_rules_view(rs@));
    }
}


/// The matching rules, in their (ascending-specificity) order.
pub open spec fn matching_rules(rules: Seq<RuleV>, e: ElementV) -> Seq<RuleV>
    decreases rules.len(),
{
    if rules.len() == 0 {
        Seq::empty()
    } else {
        matching_rules(rules.subrange(0, rules.len() - 1), e) + (if selector_matches(
            rules[rules.len() - 1].selector,
            e,
        ) {
            seq![rules[rules.len() - 1]]
        } else {
            Seq::empty()
        })
    }
}

/// All normal declarations of the given rules, rule by rule.
pub open spec fn normal_decls(rules: Seq<RuleV>) -> Seq<DeclV>
    decreases rules.len(),
{
    if rules.len() == 0 {
        Seq::empty()
    } else {
        normal_decls(rules.subrange(0, rules.len() - 1)) + rules[rules.len() - 1].declarations
    }
}

/// All `!important` declarations of the given rules, rule by rule.
pub open spec fn important_decls(rules: Seq<RuleV>) -> Seq<DeclV>
    decreases rules.len(),
{
    if rules.len() == 0 {
        Seq::empty()
    } else {
        important_decls(rules.subrange(0, rules.len() - 1)) + rules[rules.len()
            - 1].important_declarations
    }
}

/// The cascade stream for one element: every normal declaration of every
/// matching rule, low to high specificity, followed by every `!important`
/// declaration in the same rule order. Applying the stream left to right
/// with last-write-wins realizes the cascade.
pub open spec fn cascade_stream(rules: Seq<RuleV>, e: ElementV) -> Seq<DeclV> {
    normal_decls(matching_rules(rules, e)) + important_decls(matching_rules(rules, e))
}

/// Whether a declaration declares a custom property (`--name`).
pub open spec fn is_custom(d: DeclV) -> bool {
    d.name.len() >= 2 && d.name[0] == '-' && d.name[1] == '-'
}

/// The captured value of the custom property `name`: the last declaration
/// of it anywhere in the stream wins.
pub open spec fn vars_lookup(stream: Seq<DeclV>, name: Seq<char>) -> Option<Seq<char>>
    decreases stream.len(),
{
    if stream.len() == 0 {
        None
    } else if is_custom(stream.last()) && stream.last().name == name {
        Some(stream.last().value)
    } else {
        vars_lookup(stream.drop_last(), name)
    }
}

/// One step of the cascade: a custom property is captured rather than
/// applied; a `var()` reference is resolved against the whole stream and
/// re-interpreted; an unsupported or unresolvable declaration changes
/// nothing.
pub open spec fn apply_decl(
    cp: ComputedProperties,
    d: DeclV,
    stream: Seq<DeclV>,
) -> ComputedProperties {
    if is_custom(d) {
        cp
    } else {
        match var_name_of(d.value) {
            Some(n) => match vars_lookup(stream, n) {
                Some(src) => match interp_spec(d.name, src) {
                    Some(p) => apply_prop(cp, p),
                    None => cp,
                },
                None => cp,
            },
            None => match interp_spec(d.name, d.value) {
                Some(p) => apply_prop(cp, p),
                None => cp,
            },
        }
    }
}

/// The record after the first `i` declarations of the stream.
pub open spec fn cascade_fold(stream: Seq<DeclV>, i: int) -> ComputedProperties
    decreases i,
{
    if i <= 0 {
        ComputedProperties::spec_default()
    } else {
        apply_decl(cascade_fold(stream, i - 1), stream[i - 1], stream)
    }
}

/// The computed properties of one element under the given rules.
pub open spec fn compute_spec(rules: Seq<RuleV>, e: ElementV) -> ComputedProperties {
    let stream = cascade_stream(rules, e);
    cascade_fold(stream, stream.len() as int)
}

/// Whether the declaration names a custom property.
fn is_custom_decl(d: &ast::Declaration) -> (r: bool)
    ensures
        r == is_custom(d.deep_view()),
{
    let n = crate::values::chars_of(d.name.as_str());
    n.len() >= 2 && n[0] == '-' && n[1] == '-'
}

/// Finds the last declaration of the custom property `name` in the
/// stream, as an index; exactly [`vars_lookup`].
fn lookup_var(stream: &Vec<ast::Declaration>, name: &Vec<char>) -> (r: Option<usize>)
    ensures
        r matches Some(ix) ==> ix < stream@.len() && vars_lookup(stream.deep_view(), name@)
            == Some(stream@[ix as int].value@),
        r is None ==> vars_lookup(stream.deep_view(), name@) is None,
{
    let ghost sv = stream.deep_view();
    let len = stream.len();
    let mut i: usize = len;
    proof {
        assert(sv.take(len as int) =~= sv);
    }
    while i > 0
        invariant_except_break
            i <= len,
            len == stream@.len(),
            sv == stream.deep_view(),
            vars_lookup(sv, name@) == vars_lookup(sv.take(i as int), name@),
        ensures
            i <= len,
            len == stream@.len(),
            sv == stream.deep_view(),
            i > 0 ==> vars_lookup(sv, name@) == Some(stream@[i - 1].value@) && is_custom(
                sv[i - 1],
            ),
            i == 0 ==> vars_lookup(sv, name@) is None,
        decreases i,
    {
        proof {
            assert(sv.take(i as int).last() == sv[i - 1]);
            assert(sv.take(i as int).drop_last() =~= sv.take(i - 1));
            assert(sv[i - 1] == stream@[i - 1].deep_view());
        }
        let d = &stream[i - 1];
        if is_custom_decl(d) {
            let n = crate::values::chars_of(d.name.as_str());
            if crate::values::chars_eq(&n, name) {
                break;
            }
        }
        i = i - 1;
        proof {
            if i == 0 {
                assert(sv.take(0) =~= Seq::<DeclV>::empty());
            }
        }
    }
    if i > 0 {
        Some(i - 1)
    } else {
        None
    }
}

/// Appends known copies of the declarations in `src`.
fn append_decls(out: &mut Vec<ast::Declaration>, src: &Vec<ast::Declaration>)
    ensures
        final(out).deep_view() == old(out).deep_view() + src.deep_view(),
{
    let ghost base = out.deep_view();
    let mut i: usize = 0;
    proof {
        assert(base + src.deep_view().take(0) =~= base);
    }
    while i < src.len()
        invariant
            i <= src.len(),
            out.deep_view() == base + src.deep_view().take(i as int),
        decreases src.len() - i,
    {
        let ghost prev = out.deep_view();
        let d = copy_decl(&src[i]);
        let ghost dv = d.deep_view();
        out.push(d);
        i = i + 1;
        proof {
            assert(out.deep_view() =~= prev.push(dv));
            assert(src.deep_view()[i - 1] == src@[i - 1].deep_view());
            assert(out.deep_view() =~= base + src.deep_view().take(i as int));
        }
    }
    proof {
        assert(src.deep_view().take(src@.len() as int) =~= src.deep_view());
    }
}

/// Computes the properties of one element under the given sorted rules;
/// exactly [`compute_spec`].
pub fn compute_properties(rules: &Vec<Rule>, e: &Element) -> (out: ComputedProperties)
    ensures
        out == compute_spec(rules.deep_view(), e@),
{
    let ghost rv = rules.deep_view();
    let len = rules.len();
    let mut stream: Vec<ast::Declaration> = Vec::new();
    let mut i: usize = 0;
    proof {
        assert(matching_rules(rv.take(0), e@) =~= Seq::<RuleV>::empty());
        assert(normal_decls(matching_rules(rv.take(0), e@)) =~= Seq::<DeclV>::empty());
        assert(stream.deep_view() =~= Seq::<DeclV>::empty());
    }
    while i < len
        invariant
            i <= len,
            len == rules@.len(),
            rv == rules.deep_view(),
            stream.deep_view() == normal_decls(matching_rules(rv.take(i as int), e@)),
        decreases len - i,
    {
        proof {
            assert(rv.take(i + 1).drop_last() =~= rv.take(i as int));
            assert(rv.take(i + 1).subrange(0, rv.take(i + 1).len() - 1) =~= rv.take(i as int));
            assert(rv.take(i + 1).last() == rv[i as int]);
            assert(rv[i as int] == rules@[i as int].deep_view());
        }
        let ghost m_pre = matching_rules(rv.take(i as int), e@);
        if rules[i].selector.matches_element(e) {
            proof {
                let m_post = matching_rules(rv.take(i + 1), e@);
                assert(m_post =~= m_pre + seq![rv[i as int]]);
                assert(m_post.subrange(0, m_post.len() - 1) =~= m_pre);
                assert(m_post.last() == rv[i as int]);
            }
            append_decls(&mut stream, &rules[i].declarations);
            proof {
                assert(stream.deep_view() =~= normal_decls(matching_rules(rv.take(i + 1), e@)));
            }
        } else {
            proof {
                assert(matching_rules(rv.take(i + 1), e@) =~= m_pre);
            }
        }
        i = i + 1;
    }
    proof {
        assert(rv.take(len as int) =~= rv);
    }
    let ghost m_all = matching_rules(rv, e@);
    let mut j: usize = 0;
    proof {
        assert(important_decls(matching_rules(rv.take(0), e@)) =~= Seq::<DeclV>::empty());
        assert(stream.deep_view() =~= normal_decls(m_all) + important_decls(
            matching_rules(rv.take(0), e@),
        ));
    }
    while j < len
        invariant
            j <= len,
            len == rules@.len(),
            rv == rules.deep_view(),
            stream.deep_view() == normal_decls(m_all) + important_decls(
                matching_rules(rv.take(j as int), e@),
            ),
            m_all == matching_rules(rv, e@),
        decreases len - j,
    {
        proof {
            assert(rv.take(j + 1).drop_last() =~= rv.take(j as int));
            assert(rv.take(j + 1).subrange(0, rv.take(j + 1).len() - 1) =~= rv.take(j as int));
            assert(rv.take(j + 1).last() == rv[j as int]);
            assert(rv[j as int] == rules@[j as int].deep_view());
        }
        let ghost m_pre = matching_rules(rv.take(j as int), e@);
        if rules[j].selector.matches_element(e) {
            proof {
                let m_post = matching_rules(rv.take(j + 1), e@);
                assert(m_post =~= m_pre + seq![rv[j as int]]);
                assert(m_post.subrange(0, m_post.len() - 1) =~= m_pre);
                assert(m_post.last() == rv[j as int]);
            }
            append_decls(&mut stream, &rules[j].important_declarations);
            proof {
                assert(stream.deep_view() =~= normal_decls(m_all) + important_decls(
                    matching_rules(rv.take(j + 1), e@),
                ));
            }
        } else {
            proof {
                assert(matching_rules(rv.take(j + 1), e@) =~= m_pre);
            }
        }
        j = j + 1;
    }
    proof {
        assert(rv.take(len as int) =~= rv);
        assert(stream.deep_view() =~= cascade_stream(rv, e@));
    }
    let ghost sv = stream.deep_view();
    let mut cp = ComputedProperties::default();
    let total = stream.len();
    let mut k: usize = 0;
    while k < total
        invariant
            k <= total,
            total == stream@.len(),
            sv == stream.deep_view(),
            cp == cascade_fold(sv, k as int),
        decreases total - k,
    {
        proof {
            assert(sv[k as int] == stream@[k as int].deep_view());
        }
        let is_cust = is_custom_decl(&stream[k]);
        if !is_cust {
            let vchars = crate::values::chars_of(stream[k].value.as_str());
            match crate::values::find_var_name(&vchars) {
                Some(nm) => {
                    match lookup_var(&stream, &nm) {
                        Some(ix) => {
                            proof {
                                assert(vars_lookup(sv, nm@) == Some(stream@[ix as int].value@));
                            }
                            match crate::properties::interp(
                                stream[k].name.as_str(),
                                stream[ix].value.as_str(),
                            ) {
                                Some(p) => {
                                    cp.apply_property(&p);
                                },
                                None => {},
                            }
                        },
                        None => {},
                    }
                },
                None => {
                    match crate::properties::interp(
                        stream[k].name.as_str(),
                        stream[k].value.as_str(),
                    ) {
                        Some(p) => {
                            cp.apply_property(&p);
                        },
                        None => {},
                    }
                },
            }
        }
        k = k + 1;
        proof {
            assert(cp == cascade_fold(sv, k as int));
        }
    }
    proof {
        assert(cascade_fold(sv, total as int) == compute_spec(rv, e@));
    }
    cp
}


/// A one-rule stylesheet sorts to itself.
pub proof fn lemma_sort_one(r: RuleV)
    ensures
        sort_rules(seq![r]) == seq![r],
{
    let s = seq![r];
    assert(s.drop_last() =~= Seq::<RuleV>::empty());
    assert(sort_rules(s.drop_last()) =~= Seq::<RuleV>::empty());
    assert(insert_sorted(r, Seq::<RuleV>::empty()) =~= seq![r]);
}

/// Sorting two rules: the one with the strictly smaller key comes first;
/// with equal keys the source order is kept.
pub proof fn lemma_sort_two(a: RuleV, b: RuleV)
    ensures
        sort_rules(seq![a, b]) == (if rule_key(b) < rule_key(a) {
            seq![b, a]
        } else {
            seq![a, b]
        }),
{
    let s = seq![a, b];
    assert(s.drop_last() =~= seq![a]);
    assert(s.last() == b);
    lemma_sort_one(a);
    assert(sort_rules(s) == insert_sorted(b, seq![a]));
    let one = seq![a];
    assert(one.last() == a);
    if rule_key(b) < rule_key(a) {
        assert(one.drop_last() =~= Seq::<RuleV>::empty());
        assert(insert_sorted(b, Seq::<RuleV>::empty()) =~= seq![b]);
        assert(insert_sorted(b, one) =~= seq![b].push(a));
        assert(seq![b].push(a) =~= seq![b, a]);
    } else {
        assert(insert_sorted(b, one) == one.push(b));
        assert(one.push(b) =~= seq![a, b]);
    }
}

/// The cascade stream of one matching rule: its normal declarations, then
/// its `!important` declarations.
pub proof fn lemma_stream_one(r: RuleV, e: ElementV)
    requires
        selector_matches(r.selector, e),
    ensures
        cascade_stream(seq![r], e) == r.declarations + r.important_declarations,
{
    let s = seq![r];
    assert(s.subrange(0, 0) =~= Seq::<RuleV>::empty());
    assert(matching_rules(Seq::<RuleV>::empty(), e) =~= Seq::<RuleV>::empty());
    let m = matching_rules(s, e);
    assert(m =~= seq![r]);
    assert(m.subrange(0, 0) =~= Seq::<RuleV>::empty());
    assert(normal_decls(Seq::<RuleV>::empty()) =~= Seq::<DeclV>::empty());
    assert(important_decls(Seq::<RuleV>::empty()) =~= Seq::<DeclV>::empty());
    assert(normal_decls(m) =~= Seq::<DeclV>::empty() + r.declarations);
    assert(Seq::<DeclV>::empty() + r.declarations =~= r.declarations);
    assert(important_decls(m) =~= Seq::<DeclV>::empty() + r.important_declarations);
    assert(Seq::<DeclV>::empty() + r.important_declarations =~= r.important_declarations);
}

/// The cascade stream of two matching rules, already in rule order: all
/// normal declarations first, low to high, then all `!important`
/// declarations in the same rule order.
pub proof fn lemma_stream_two(a: RuleV, b: RuleV, e: ElementV)
    requires
        selector_matches(a.selector, e),
        selector_matches(b.selector, e),
    ensures
        cascade_stream(seq![a, b], e) == a.declarations + b.declarations
            + a.important_declarations + b.important_declarations,
{
    let s = seq![a, b];
    assert(s.subrange(0, 1) =~= seq![a]);
    assert(seq![a].subrange(0, 0) =~= Seq::<RuleV>::empty());
    assert(matching_rules(Seq::<RuleV>::empty(), e) =~= Seq::<RuleV>::empty());
    assert(matching_rules(seq![a], e) =~= seq![a]);
    let m = matching_rules(s, e);
    assert(m =~= seq![a, b]);
    assert(m.subrange(0, 1) =~= seq![a]);
    assert(seq![a].subrange(0, 0) =~= Seq::<RuleV>::empty());
    assert(normal_decls(Seq::<RuleV>::empty()) =~= Seq::<DeclV>::empty());
    assert(important_decls(Seq::<RuleV>::empty()) =~= Seq::<DeclV>::empty());
    assert(normal_decls(seq![a]) =~= Seq::<DeclV>::empty() + a.declarations);
    assert(Seq::<DeclV>::empty() + a.declarations =~= a.declarations);
    assert(important_decls(seq![a]) =~= Seq::<DeclV>::empty() + a.important_declarations);
    assert(Seq::<DeclV>::empty() + a.important_declarations =~= a.important_declarations);
    assert(normal_decls(m) =~= a.declarations + b.declarations);
    assert(important_decls(m) =~= a.important_declarations + b.important_declarations);
    assert(cascade_stream(s, e) =~= a.declarations + b.declarations + a.important_declarations
        + b.important_declarations);
}

/// Folding a two-declaration stream: the second declaration is applied
/// after the first, so on the same property the second wins.
pub proof fn lemma_fold_two(s: Seq<DeclV>)
    requires
        s.len() == 2,
    ensures
        cascade_fold(s, 2) == apply_decl(
            apply_decl(ComputedProperties::spec_default(), s[0], s),
            s[1],
            s,
        ),
{
    reveal_with_fuel(cascade_fold, 3);
}

/// Specificity ordering: when two rules both match the same element and
/// each gives the same property one plain declaration, the declaration of
/// the more specific rule wins, whichever order the source wrote the two
/// rules in.
pub proof fn lemma_specificity_ordering(
    r1: RuleV,
    r2: RuleV,
    e: ElementV,
    name: Seq<char>,
    v1: Seq<char>,
    v2: Seq<char>,
)
    requires
        selector_matches(r1.selector, e),
        selector_matches(r2.selector, e),
        rule_key(r1) > rule_key(r2),
        r1.declarations == seq![DeclV { name, value: v1 }],
        r2.declarations == seq![DeclV { name, value: v2 }],
        r1.important_declarations.len() == 0,
        r2.important_declarations.len() == 0,
        !is_custom(DeclV { name, value: v1 }),
        !is_custom(DeclV { name, value: v2 }),
        var_name_of(v1) is None,
        var_name_of(v2) is None,
        interp_spec(name, v1) is Some,
        interp_spec(name, v2) is Some,
    ensures
        compute_spec(sort_rules(seq![r1, r2]), e) == apply_prop(
            apply_prop(ComputedProperties::spec_default(), interp_spec(name, v2).unwrap()),
            interp_spec(name, v1).unwrap(),
        ),
        compute_spec(sort_rules(seq![r2, r1]), e) == compute_spec(sort_rules(seq![r1, r2]), e),
{
    lemma_sort_two(r1, r2);
    lemma_sort_two(r2, r1);
    assert(sort_rules(seq![r1, r2]) == seq![r2, r1]);
    assert(sort_rules(seq![r2, r1]) == seq![r2, r1]);
    lemma_stream_two(r2, r1, e);
    let stream = cascade_stream(seq![r2, r1], e);
    assert(stream =~= seq![DeclV { name, value: v2 }, DeclV { name, value: v1 }]);
    lemma_fold_two(stream);
}

/// Importance override: an `!important` declaration from a less specific
/// rule is applied after, and so overrides, a plain declaration of the
/// same property from a more specific rule.
pub proof fn lemma_importance_override(
    r_imp: RuleV,
    r_norm: RuleV,
    e: ElementV,
    name: Seq<char>,
    vi: Seq<char>,
    vn: Seq<char>,
)
    requires
        selector_matches(r_imp.selector, e),
        selector_matches(r_norm.selector, e),
        rule_key(r_imp) < rule_key(r_norm),
        r_imp.declarations.len() == 0,
        r_imp.important_declarations == seq![DeclV { name, value: vi }],
        r_norm.declarations == seq![DeclV { name, value: vn }],
        r_norm.important_declarations.len() == 0,
        !is_custom(DeclV { name, value: vi }),
        !is_custom(DeclV { name, value: vn }),
        var_name_of(vi) is None,
        var_name_of(vn) is None,
        interp_spec(name, vi) is Some,
        interp_spec(name, vn) is Some,
    ensures
        compute_spec(sort_rules(seq![r_imp, r_norm]), e) == apply_prop(
            apply_prop(ComputedProperties::spec_default(), interp_spec(name, vn).unwrap()),
            interp_spec(name, vi).unwrap(),
        ),
        compute_spec(sort_rules(seq![r_norm, r_imp]), e) == compute_spec(
            sort_rules(seq![r_imp, r_norm]),
            e,
        ),
{
    lemma_sort_two(r_imp, r_norm);
    lemma_sort_two(r_norm, r_imp);
    assert(sort_rules(seq![r_imp, r_norm]) == seq![r_imp, r_norm]);
    assert(sort_rules(seq![r_norm, r_imp]) == seq![r_imp, r_norm]);
    lemma_stream_two(r_imp, r_norm, e);
    let stream = cascade_stream(seq![r_imp, r_norm], e);
    assert(stream =~= seq![DeclV { name, value: vn }, DeclV { name, value: vi }]);
    lemma_fold_two(stream);
}

/// Last-applied wins within a tier: two plain declarations of the same
/// property from rules of equal specificity are applied in source order,
/// so the later rule's value is the final one.
pub proof fn lemma_last_applied_wins(
    ra: RuleV,
    rb: RuleV,
    e: ElementV,
    name: Seq<char>,
    va: Seq<char>,
    vb: Seq<char>,
)
    requires
        selector_matches(ra.selector, e),
        selector_matches(rb.selector, e),
        rule_key(ra) == rule_key(rb),
        ra.declarations == seq![DeclV { name, value: va }],
        rb.declarations == seq![DeclV { name, value: vb }],
        ra.important_declarations.len() == 0,
        rb.important_declarations.len() == 0,
        !is_custom(DeclV { name, value: va }),
        !is_custom(DeclV { name, value: vb }),
        var_name_of(va) is None,
        var_name_of(vb) is None,
        interp_spec(name, va) is Some,
        interp_spec(name, vb) is Some,
    ensures
        compute_spec(sort_rules(seq![ra, rb]), e) == apply_prop(
            apply_prop(ComputedProperties::spec_default(), interp_spec(name, va).unwrap()),
            interp_spec(name, vb).unwrap(),
        ),
{
    lemma_sort_two(ra, rb);
    assert(sort_rules(seq![ra, rb]) == seq![ra, rb]);
    lemma_stream_two(ra, rb, e);
    let stream = cascade_stream(seq![ra, rb], e);
    assert(stream =~= seq![DeclV { name, value: va }, DeclV { name, value: vb }]);
    lemma_fold_two(stream);
}

/// Variable resolution: a custom property captured from the matching rules
/// is substituted into a later `var()` reference, and the referenced value
/// is interpreted as the target property's value.
pub proof fn lemma_variable_resolution(
    r: RuleV,
    e: ElementV,
    nm: Seq<char>,
    src: Seq<char>,
    pname: Seq<char>,
    pvalue: Seq<char>,
)
    requires
        selector_matches(r.selector, e),
        r.declarations == seq![DeclV { name: nm, value: src }, DeclV {
            name: pname,
            value: pvalue,
        }],
        r.important_declarations.len() == 0,
        is_custom(DeclV { name: nm, value: src }),
        !is_custom(DeclV { name: pname, value: pvalue }),
        var_name_of(pvalue) == Some(nm),
        interp_spec(pname, src) is Some,
    ensures
        compute_spec(sort_rules(seq![r]), e) == apply_prop(
            ComputedProperties::spec_default(),
            interp_spec(pname, src).unwrap(),
        ),
{
    lemma_sort_one(r);
    lemma_stream_one(r, e);
    let d1 = DeclV { name: nm, value: src };
    let d2 = DeclV { name: pname, value: pvalue };
    let stream = cascade_stream(seq![r], e);
    assert(stream =~= seq![d1, d2]);
    lemma_fold_two(stream);
    assert(apply_decl(ComputedProperties::spec_default(), d1, stream)
        == ComputedProperties::spec_default());
    assert(stream.last() == d2);
    assert(vars_lookup(stream, nm) == vars_lookup(stream.drop_last(), nm));
    assert(stream.drop_last() =~= seq![d1]);
    assert(seq![d1].last() == d1);
    assert(vars_lookup(seq![d1], nm) == Some(src));
    assert(vars_lookup(stream, nm) == Some(src));
}

/// A `var()` reference to a custom property that no matching rule defines
/// leaves the property at its default: the declaration is skipped, the
/// computation does not abort.
pub proof fn lemma_variable_unresolved(
    r: RuleV,
    e: ElementV,
    nm: Seq<char>,
    pname: Seq<char>,
    pvalue: Seq<char>,
)
    requires
        selector_matches(r.selector, e),
        r.declarations == seq![DeclV { name: pname, value: pvalue }],
        r.important_declarations.len() == 0,
        !is_custom(DeclV { name: pname, value: pvalue }),
        var_name_of(pvalue) == Some(nm),
    ensures
        compute_spec(sort_rules(seq![r]), e) == ComputedProperties::spec_default(),
{
    lemma_sort_one(r);
    lemma_stream_one(r, e);
    let d = DeclV { name: pname, value: pvalue };
    let stream = cascade_stream(seq![r], e);
    assert(stream =~= seq![d]);
    assert(stream.last() == d);
    assert(vars_lookup(stream, nm) == vars_lookup(stream.drop_last(), nm));
    assert(stream.drop_last() =~= Seq::<DeclV>::empty());
    assert(vars_lookup(Seq::<DeclV>::empty(), nm) is None);
    assert(vars_lookup(stream, nm) is None);
    reveal_with_fuel(cascade_fold, 2);
    assert(cascade_fold(stream, 1) == apply_decl(
        ComputedProperties::spec_default(),
        stream[0],
        stream,
    ));
}

/// Environment gating: a conditional group whose query list does not hold
/// of the environment contributes nothing — every element computes to the
/// all-default record under a stylesheet holding only that group.
pub proof fn lemma_environment_gating(m: MediaGroupV, env: EnvironmentV, e: ElementV)
    requires
        !query_list_matches(m.queries, env),
    ensures
        build_spec(seq![RawRuleV::Media(m)], env) == Seq::<RuleV>::empty(),
        compute_spec(build_spec(seq![RawRuleV::Media(m)], env), e)
            == ComputedProperties::spec_default(),
{
    let ast = seq![RawRuleV::Media(m)];
    assert(ast.subrange(0, 0) =~= Seq::<RawRuleV>::empty());
    assert(expand_rules(Seq::<RawRuleV>::empty(), env) =~= Seq::<RuleV>::empty());
    assert(expand_rule(RawRuleV::Media(m), env) =~= Seq::<RuleV>::empty());
    assert(expand_rules(ast, env) =~= Seq::<RuleV>::empty());
    assert(build_spec(ast, env) =~= Seq::<RuleV>::empty());
    assert(matching_rules(Seq::<RuleV>::empty(), e) =~= Seq::<RuleV>::empty());
    assert(cascade_stream(Seq::<RuleV>::empty(), e) =~= Seq::<DeclV>::empty());
}

/// Under a dark theme, a `(prefers-color-scheme: light)` feature never
/// holds and a `(prefers-color-scheme: dark)` feature always does; under a
/// light theme it is the other way round.
pub proof fn lemma_color_scheme_feature(env: EnvironmentV)
    ensures
        condition_matches(
            ConditionV::Feature("prefers-color-scheme"@, "light"@),
            env,
        ) == (env.theme == SystemTheme::Light),
        condition_matches(ConditionV::Feature("prefers-color-scheme"@, "dark"@), env) == (
        env.theme == SystemTheme::Dark),
{
    reveal_strlit("prefers-color-scheme");
    reveal_strlit("os-version");
    reveal_strlit("light");
    reveal_strlit("dark");
    assert("prefers-color-scheme"@.len() == 20);
    assert("os-version"@.len() == 10);
    assert("light"@.len() == 5);
    assert("dark"@.len() == 4);
}

/// Computation has no hidden state: it is a function of the rules and the
/// element alone, so equal inputs give equal results.
pub proof fn lemma_compute_idempotent(rules: Seq<RuleV>, e1: ElementV, e2: ElementV)
    requires
        e1 == e2,
    ensures
        compute_spec(rules, e1) == compute_spec(rules, e2),
{
}

} // verus!
