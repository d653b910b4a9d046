//! Parsing operations.
//!
//! The CSS grammar itself is handled by the lightningcss parser; this
//! module converts its syntax tree into the engine's own owned rule form
//! and hands that to the verified stylesheet construction. Every function
//! that touches the outside parser is a trusted item with its contract
//! stated here.

use vstd::prelude::*;

use crate::ast;
use crate::ast::{raw_rules_view, RawRuleV};
use crate::compute;
use crate::compute::{build_spec, compute_spec, pre_compute, RuleV};
use crate::element::Element;
use crate::media::Environment;
use crate::properties::ComputedProperties;

verus! {

// What the outside parser returns is a function of the source text alone:
// the same source always parses to the same rules (the file name passed
// for error messages changes diagnostics only). `css_parse` names that
// result; `None` stands for a parse that fails outright.
pub uninterp spec fn css_parse(source: Seq<char>) -> Option<Seq<RawRuleV>>;

#[verifier::external_type_specification]
#[verifier::external_body]
#[verifier::reject_recursive_types(R)]
pub struct ExCssRule<'i, R>(lightningcss::rules::CssRule<'i, R>);

#[verifier::external_type_specification]
#[verifier::external_body]
#[verifier::reject_recursive_types(R)]
pub struct ExStyleRule<'i, R>(lightningcss::rules::style::StyleRule<'i, R>);

#[verifier::external_type_specification]
#[verifier::external_body]
#[verifier::reject_recursive_types(R)]
pub struct ExMediaRule<'i, R>(lightningcss::rules::media::MediaRule<'i, R>);

#[verifier::external_type_specification]
#[verifier::external_body]
pub struct ExMediaQuery<'i>(lightningcss::media_query::MediaQuery<'i>);

#[verifier::external_type_specification]
#[verifier::external_body]
pub struct ExMediaCondition<'i>(lightningcss::media_query::MediaCondition<'i>);

#[verifier::external_type_specification]
#[verifier::external_body]
#[verifier::reject_recursive_types(FeatureId)]
pub struct ExQueryFeature<'i, FeatureId>(lightningcss::media_query::QueryFeature<'i, FeatureId>);

#[verifier::external_type_specification]
#[verifier::external_body]
pub struct ExMediaFeatureId(lightningcss::media_query::MediaFeatureId);

#[verifier::external_type_specification]
#[verifier::external_body]
pub struct ExProperty<'i>(lightningcss::properties::Property<'i>);

/// Relies on lightningcss's `StyleSheet::parse` with error recovery: the
/// parse result is a function of the source text alone, named by
/// [`css_parse`]; the file name only decorates diagnostic messages.
#[verifier::external_body]
fn parse_css_raw(source: &str, filename: Option<&str>) -> (r: Result<ast::Sheet, String>)
    ensures
        r matches Ok(sheet) ==> css_parse(source@) == Some(raw_rules_view(sheet.rules@)),
        r is Err <==> css_parse(source@) is None,
{
    let warnings = std::sync::Arc::new(std::sync::RwLock::new(Vec::new()));
    let options = lightningcss::stylesheet::ParserOptions {
        filename: filename.unwrap_or("").to_string(),
        error_recovery: true,
        warnings: Some(warnings.clone()),
        ..lightningcss::stylesheet::ParserOptions::default()
    };
    let sheet =
        lightningcss::stylesheet::StyleSheet::parse(source, options).map_err(|e| e.to_string())?;
    let rules = sheet.rules.0.iter().map(convert_rule).collect();
    let diagnostics =
        warnings.read().map(|w| w.iter().map(|e| e.to_string()).collect()).unwrap_or_default();
    Ok(ast::Sheet { rules, diagnostics })
}

/// Converts one top-level lightningcss rule; style and media rules are
/// kept, every other at-rule kind becomes `Unsupported`.
#[verifier::external_body]
fn convert_rule<R>(r: &lightningcss::rules::CssRule<'_, R>) -> ast::RawRule {
    match r {
        lightningcss::rules::CssRule::Style(s) => ast::RawRule::Style(convert_style(s)),
        lightningcss::rules::CssRule::Media(m) => ast::RawRule::Media(convert_media(m)),
        _ => ast::RawRule::Unsupported,
    }
}

/// Converts a lightningcss style rule: its selector list and its normal
/// and `!important` declaration lists.
#[verifier::external_body]
fn convert_style<R>(s: &lightningcss::rules::style::StyleRule<'_, R>) -> ast::RawStyle {
    ast::RawStyle {
        selectors: s.selectors.0.iter().map(|sel| crate::selector::CompiledSelector {
            components: sel.iter_raw_match_order().map(|c| crate::selector::classify_part(
                &cssparser::ToCss::to_css_string(c),
            )).collect(),
        }).collect(),
        declarations: s.declarations.declarations.iter().filter_map(convert_decl).collect(),
        important_declarations: s
            .declarations
            .important_declarations
            .iter()
            .filter_map(convert_decl)
            .collect(),
    }
}

/// Converts a lightningcss `@media` rule: its query list and its nested
/// rules.
#[verifier::external_body]
fn convert_media<R>(m: &lightningcss::rules::media::MediaRule<'_, R>) -> ast::MediaGroup {
    ast::MediaGroup {
        queries: m.query.media_queries.iter().map(convert_query).collect(),
        rules: m.rules.0.iter().map(convert_rule).collect(),
    }
}

/// Converts one media query: its `not` qualifier and its condition.
#[verifier::external_body]
fn convert_query(q: &lightningcss::media_query::MediaQuery<'_>) -> crate::media::Query {
    crate::media::Query {
        negated: matches!(q.qualifier, Some(lightningcss::media_query::Qualifier::Not)),
        condition: q.condition.as_ref().map(convert_condition),
    }
}

/// Converts one media condition; unknown condition forms become
/// `Unsupported`, which never matches.
#[verifier::external_body]
fn convert_condition(c: &lightningcss::media_query::MediaCondition<'_>) -> crate::media::Condition {
    match c {
        lightningcss::media_query::MediaCondition::Feature(f) => convert_feature(f),
        lightningcss::media_query::MediaCondition::Not(b) => crate::media::Condition::Not(Box::new(convert_condition(b))),
        lightningcss::media_query::MediaCondition::Operation { operator: lightningcss::media_query::Operator::And, conditions } =>
            crate::media::Condition::And(conditions.iter().map(convert_condition).collect()),
        lightningcss::media_query::MediaCondition::Operation { operator: lightningcss::media_query::Operator::Or, conditions } =>
            crate::media::Condition::Or(conditions.iter().map(convert_condition).collect()),
        _ => crate::media::Condition::Unsupported,
    }
}

/// Converts one media feature test. Only the plain `(name: ident)` form is
/// kept, with the feature name serialized back to its written form.
#[verifier::external_body]
fn convert_feature(f: &lightningcss::media_query::MediaFeature<'_>) -> crate::media::Condition {
    match f {
        lightningcss::media_query::QueryFeature::Plain { name, value: lightningcss::media_query::MediaFeatureValue::Ident(id) } => {
            match lightningcss::traits::ToCss::to_css_string(
                name,
                lightningcss::printer::PrinterOptions::default(),
            ) {
                Ok(n) => crate::media::Condition::Feature(n, id.as_ref().to_string()),
                Err(_) => crate::media::Condition::Unsupported,
            }
        },
        _ => crate::media::Condition::Unsupported,
    }
}

/// Converts one declaration to its property name and serialized value
/// text; custom properties keep their raw token text. A declaration whose
/// value cannot be serialized is dropped.
#[verifier::external_body]
fn convert_decl(p: &lightningcss::properties::Property<'_>) -> Option<ast::Declaration> {
    let id = p.property_id();
    let name = id.name().to_string();
    let value = p.value_to_css_string(lightningcss::printer::PrinterOptions::default()).ok()?;
    Some(ast::Declaration { name, value })
}

/// Events sent from the re-parse loop.
#[derive(Debug)]
pub enum Event {
    /// The source or the environment has changed and the stylesheet was
    /// rebuilt. Restyling is necessary.
    Invalidated(Rules),
    /// An error occurred during the parsing or watching process.
    Error(String),
}

/// CSS parse result: the compiled, specificity-sorted rules and the
/// diagnostics gathered while parsing.
#[derive(Debug)]
pub struct Rules {
    rules: Vec<compute::Rule>,
    diagnostics: Vec<String>,
}

/// The mathematical shape of a parse result.
pub struct RulesV {
    pub rules: Seq<RuleV>,
    pub diagnostics: Seq<Seq<char>>,
}

impl View for Rules {
    type V = RulesV;

    closed spec fn view(&self) -> RulesV {
        RulesV { rules: self.rules.deep_view(), diagnostics: self.diagnostics.deep_view() }
    }
}

impl Rules {
    /// Compute properties of element.
    pub fn compute(&self, element: &Element) -> (r: ComputedProperties)
        ensures
            r == compute_spec(self@.rules, element@),
    {
        compute::compute_properties(&self.rules, element)
    }

    /// The diagnostics the parser reported while recovering from errors.
    pub fn diagnostics(&self) -> (r: &Vec<String>)
        ensures
            r.deep_view() == self@.diagnostics,
    {
        &self.diagnostics
    }
}

/// Parses a stylesheet from source text and builds its rules against the
/// given environment snapshot. `path` only decorates diagnostic messages.
///
/// On success the rules are exactly the parsed rules, filtered by the
/// environment and sorted by ascending specificity; parsing fails only
/// when the outside parser rejects the source outright.
pub fn parse_string_sync(source: &str, path: Option<&str>, env: &Environment) -> (r: Result<
    Rules,
    String,
>)
    ensures
        r matches Ok(rules) ==> css_parse(source@) matches Some(ast) && rules@.rules == build_spec(
            ast,
            env@,
        ),
        r is Err <==> css_parse(source@) is None,
{
    match parse_css_raw(source, path) {
        Ok(sheet) => {
            let rules = pre_compute(&sheet.rules, env);
            Ok(Rules { rules, diagnostics: sheet.diagnostics })
        },
        Err(e) => Err(e),
    }
}

} // verus!
