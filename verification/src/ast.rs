//! The parsed form of a stylesheet: top-level rules as the parser hands
//! them over, before environment filtering and specificity sorting.
//!
//! Declarations carry their value as raw text; the engine interprets it
//! when the cascade is resolved (see the `values` module).

use vstd::prelude::*;

use crate::media::{Query, QueryV};
use crate::selector::{CompiledSelector, SelectorV};

verus! {

/// One declaration: a property name and its value text.
#[derive(Clone, Debug, PartialEq, Eq)]
pub struct Declaration {
    pub name: String,
    pub value: String,
}

/// The mathematical shape of a declaration.
pub struct DeclV {
    pub name: Seq<char>,
    pub value: Seq<char>,
}

impl DeepView for Declaration {
    type V = DeclV;

    open spec fn deep_view(&self) -> DeclV {
        DeclV { name: self.name@, value: self.value@ }
    }
}

/// One style rule: its selectors and its declaration block, already split
/// into normal and `!important` declarations, each in source order.
#[derive(Debug)]
pub struct RawStyle {
    pub selectors: Vec<CompiledSelector>,
    pub declarations: Vec<Declaration>,
    pub important_declarations: Vec<Declaration>,
}

/// The mathematical shape of a style rule.
pub struct RawStyleV {
    pub selectors: Seq<SelectorV>,
    pub declarations: Seq<DeclV>,
    pub important_declarations: Seq<DeclV>,
}

impl DeepView for RawStyle {
    type V = RawStyleV;

    open spec fn deep_view(&self) -> RawStyleV {
        RawStyleV {
            selectors: self.selectors.deep_view(),
            declarations: self.declarations.deep_view(),
            important_declarations: self.important_declarations.deep_view(),
        }
    }
}

/// A conditional group: rules gated by a media query list.
#[derive(Debug)]
pub struct MediaGroup {
    pub queries: Vec<Query>,
    pub rules: Vec<RawRule>,
}

/// One top-level rule of the parsed stylesheet.
#[derive(Debug)]
pub enum RawRule {
    Style(RawStyle),
    Media(MediaGroup),
    /// An at-rule kind this engine does not handle; dropped when the
    /// stylesheet is built.
    Unsupported,
}

/// The mathematical shape of a conditional group.
pub struct MediaGroupV {
    pub queries: Seq<QueryV>,
    pub rules: Seq<RawRuleV>,
}

/// The mathematical shape of a top-level rule.
pub enum RawRuleV {
    Style(RawStyleV),
    Media(MediaGroupV),
    Unsupported,
}

/// The mathematical shape of a top-level rule value.
pub open spec fn raw_rule_view(r: RawRule) -> RawRuleV
    decreases r, 1int,
{
    match r {
        RawRule::Style(s) => RawRuleV::Style(s.deep_view()),
        RawRule::Media(m) => RawRuleV::Media(
            MediaGroupV { queries: m.queries.deep_view(), rules: raw_rules_view(m.rules@) },
        ),
        RawRule::Unsupported => RawRuleV::Unsupported,
    }
}

/// The shapes of a sequence of top-level rules, element by element.
pub open spec fn raw_rules_view(rs: Seq<RawRule>) -> Seq<RawRuleV>
    decreases rs, 0int,
{
    if rs.len() == 0 {
        Seq::empty()
    } else {
        raw_rules_view(rs.subrange(0, rs.len() - 1)).push(raw_rule_view(rs[rs.len() - 1]))
    }
}

/// `raw_rules_view` is elementwise `raw_rule_view`.
pub proof fn lemma_raw_rules_view(rs: Seq<RawRule>)
    ensures
        raw_rules_view(rs).len() == rs.len(),
        forall|i: int|
            #![trigger raw_rules_view(rs)[i]]
            #![trigger rs[i]]
            0 <= i < rs.len() ==> raw_rules_view(rs)[i] == raw_rule_view(rs[i]),
    decreases rs.len(),
{
    if rs.len() > 0 {
        let front = rs.subrange(0, rs.len() - 1);
        lemma_raw_rules_view(front);
        assert forall|i: int|
            #![trigger raw_rules_view(rs)[i]]
            #![trigger rs[i]]
            0 <= i < rs.len() implies raw_rules_view(rs)[i] == raw_rule_view(rs[i]) by {
            if i < rs.len() - 1 {
                assert(front[i] == rs[i]);
                assert(raw_rules_view(front)[i] == raw_rule_view(front[i]));
            }
        }
    }
}

impl DeepView for RawRule {
    type V = RawRuleV;

    open spec fn deep_view(&self) -> RawRuleV {
        raw_rule_view(*self)
    }
}

/// A parsed stylesheet: its top-level rules and the diagnostics that the
/// parser reported while recovering from errors.
#[derive(Debug)]
pub struct Sheet {
    pub rules: Vec<RawRule>,
    pub diagnostics: Vec<String>,
}

} // verus!
