//! A CSS-subset styling engine for desktop GUI toolkits.
//!
//! A stylesheet is parsed into an ordered rule list, rules are matched
//! against application-defined element values, and the CSS cascade
//! (specificity order, `!important` override, custom-property substitution)
//! is resolved into one [`properties::ComputedProperties`] record per
//! element. The grammar itself is handled by an outside CSS parser; the
//! rule model, the matcher, the environment predicates and the whole
//! cascade are specified and verified here.

/// The parsed stylesheet form.
pub mod ast;
/// The cascade resolver.
pub mod compute;
/// Elements matched against selectors.
pub mod element;
/// Helpers for toolkits.
pub mod integration;
/// Environment predicates: the media-query subset.
pub mod media;
/// Parsing operations.
pub mod parser;
/// Parsed and computed properties.
pub mod properties;
/// Compiled selectors and matching.
pub mod selector;
/// Parsing of raw CSS value text into scalar values.
pub mod values;
