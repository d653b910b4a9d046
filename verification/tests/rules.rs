//! Tests for the cascade policy: specificity, importance, source order,
//! variables, environment gating, matching.

use guicss::element::{Element, PseudoClass};
use guicss::integration::iced::IdAndClasses;
use guicss::media::{Environment, SystemTheme};
use guicss::parser::parse_string_sync;
use guicss::properties::{Color, ComputedProperties};

const RED: Color = Color { r: 255, g: 0, b: 0, a: 255 };
const GREEN: Color = Color { r: 0, g: 128, b: 0, a: 255 };
const BLACK: Color = Color { r: 0, g: 0, b: 0, a: 255 };

fn env() -> Environment {
    Environment::new("linux", SystemTheme::Light)
}

fn compute_for(source: &str, elt: &Element) -> ComputedProperties {
    parse_string_sync(source, None, &env()).unwrap().compute(elt)
}

#[test]
fn id_beats_type_regardless_of_source_order() {
    let elt = Element::named("hbox").id("foo");
    let a = compute_for("#foo { color: red; } hbox { color: green; }", &elt);
    let b = compute_for("hbox { color: green; } #foo { color: red; }", &elt);
    assert_eq!(a.color, RED);
    assert_eq!(b.color, RED);
}

#[test]
fn important_beats_higher_specificity() {
    let elt = Element::named("hbox").id("foo");
    let p = compute_for(
        "hbox { color: red !important; } #foo { color: green; }",
        &elt,
    );
    assert_eq!(p.color, RED);
}

#[test]
fn later_rule_wins_within_a_tier() {
    let elt = Element::named("hbox");
    let p = compute_for("hbox { color: red; } hbox { color: green; }", &elt);
    assert_eq!(p.color, GREEN);
}

#[test]
fn variable_resolution() {
    let elt = Element::named("hbox");
    let p = compute_for("hbox { --mycolor: black; color: var(--mycolor); }", &elt);
    assert_eq!(p.color, BLACK);
}

#[test]
fn undefined_variable_leaves_default() {
    let elt = Element::named("hbox");
    let p = compute_for("hbox { color: var(--missing); }", &elt);
    assert_eq!(p, ComputedProperties::default());
}

#[test]
fn variable_defined_by_other_matching_rule() {
    let elt = Element::named("hbox").id("foo");
    let p = compute_for("#foo { --c: red; } hbox { color: var(--c); }", &elt);
    assert_eq!(p.color, RED);
}

#[test]
fn os_version_gating() {
    let source = "@media (os-version: testos) { hbox { color: red; } }";
    let elt = Element::named("hbox");
    let on = parse_string_sync(source, None, &Environment::new("testos", SystemTheme::Light))
        .unwrap()
        .compute(&elt);
    let off = parse_string_sync(source, None, &Environment::new("otheros", SystemTheme::Light))
        .unwrap()
        .compute(&elt);
    assert_eq!(on.color, RED);
    assert_eq!(off, ComputedProperties::default());
}

#[test]
fn media_not_qualifier() {
    let source = "@media not (prefers-color-scheme: light) { hbox { color: red; } }";
    let elt = Element::named("hbox");
    let dark = parse_string_sync(source, None, &Environment::new("linux", SystemTheme::Dark))
        .unwrap()
        .compute(&elt);
    let light = parse_string_sync(source, None, &env()).unwrap().compute(&elt);
    assert_eq!(dark.color, RED);
    assert_eq!(light, ComputedProperties::default());
}

#[test]
fn media_and_condition() {
    let source = "@media (prefers-color-scheme: light) and (os-version: testos) { hbox { color: red; } }";
    let elt = Element::named("hbox");
    let both = parse_string_sync(source, None, &Environment::new("testos", SystemTheme::Light))
        .unwrap()
        .compute(&elt);
    let one = parse_string_sync(source, None, &Environment::new("testos", SystemTheme::Dark))
        .unwrap()
        .compute(&elt);
    assert_eq!(both.color, RED);
    assert_eq!(one, ComputedProperties::default());
}

#[test]
fn media_query_list_is_a_disjunction() {
    let source = "@media (prefers-color-scheme: dark), (os-version: testos) { hbox { color: red; } }";
    let elt = Element::named("hbox");
    let second = parse_string_sync(source, None, &Environment::new("testos", SystemTheme::Light))
        .unwrap()
        .compute(&elt);
    let neither = parse_string_sync(source, None, &Environment::new("otheros", SystemTheme::Light))
        .unwrap()
        .compute(&elt);
    assert_eq!(second.color, RED);
    assert_eq!(neither, ComputedProperties::default());
}

#[test]
fn attribute_value_with_spaces() {
    let source = "hbox[t=\"a b\"] { color: red; }";
    let with = Element::named("hbox").attribute("t", "a b");
    let other = Element::named("hbox").attribute("t", "a");
    assert_eq!(compute_for(source, &with).color, RED);
    assert_eq!(compute_for(source, &other), ComputedProperties::default());
}

#[test]
fn variable_fallback_is_ignored() {
    let elt = Element::named("hbox");
    let defined = compute_for("hbox { --c: green; color: var(--c, red); }", &elt);
    assert_eq!(defined.color, GREEN);
    let undefined = compute_for("hbox { color: var(--c, red); }", &elt);
    assert_eq!(undefined, ComputedProperties::default());
}

#[test]
fn pseudo_class_matching() {
    let source = "hbox:hover { color: red; }";
    let hovered = Element::named("hbox").pseudo_class(PseudoClass::Hover);
    let plain = Element::named("hbox");
    assert_eq!(compute_for(source, &hovered).color, RED);
    assert_eq!(compute_for(source, &plain), ComputedProperties::default());
}

#[test]
fn pseudo_element_matching() {
    let source = "::before { color: red; }";
    assert_eq!(compute_for(source, &Element::before()).color, RED);
    assert_eq!(
        compute_for(source, &Element::after()),
        ComputedProperties::default()
    );
}

#[test]
fn root_matching() {
    let source = ":root { color: red; }";
    assert_eq!(compute_for(source, &Element::root()).color, RED);
    assert_eq!(
        compute_for(source, &Element::named("hbox")),
        ComputedProperties::default()
    );
}

#[test]
fn attribute_exists_matching() {
    let source = "hbox[foo] { color: red; }";
    let with = Element::named("hbox").attribute("foo", "anything");
    let without = Element::named("hbox");
    assert_eq!(compute_for(source, &with).color, RED);
    assert_eq!(compute_for(source, &without), ComputedProperties::default());
}

#[test]
fn later_attribute_value_wins() {
    let source = "hbox[foo=two] { color: red; }";
    let elt = Element::named("hbox")
        .attribute("foo", "one")
        .attribute("foo", "two");
    assert_eq!(compute_for(source, &elt).color, RED);
}

#[test]
fn combinators_never_match_without_a_tree() {
    let source = "vbox hbox { color: red; }";
    let elt = Element::named("hbox");
    assert_eq!(compute_for(source, &elt), ComputedProperties::default());
}

#[test]
fn nested_conditional_groups_are_dropped() {
    // Only one nesting level of conditional groups is honored.
    let source = "@media (prefers-color-scheme: light) { @media (prefers-color-scheme: light) { hbox { color: red; } } hbox { background-color: green; } }";
    let p = compute_for(source, &Element::named("hbox"));
    assert_eq!(p.color, Color::default());
    assert_eq!(p.background_color, GREEN);
}

#[test]
fn parse_recovers_and_reports_diagnostics() {
    let source = "@wat {}\nhbox { color: green; }";
    let rules = parse_string_sync(source, None, &env()).unwrap();
    let p = rules.compute(&Element::named("hbox"));
    assert_eq!(p.color, GREEN);
    assert!(!rules.diagnostics().is_empty());
}

#[test]
fn reparsing_identical_source_gives_identical_results() {
    let source = "hbox { color: green; margin: 2px; } #foo { color: red; }";
    let elt = Element::named("hbox").id("foo");
    let a = parse_string_sync(source, None, &env()).unwrap().compute(&elt);
    let b = parse_string_sync(source, None, &env()).unwrap().compute(&elt);
    assert_eq!(a, b);
}

#[test]
fn compute_is_repeatable() {
    let rules = parse_string_sync("hbox { color: green; }", None, &env()).unwrap();
    let e1 = Element::named("hbox").class("a");
    let e2 = Element::named("hbox").class("a");
    assert_eq!(rules.compute(&e1), rules.compute(&e2));
    assert_eq!(rules.compute(&e1), rules.compute(&e1));
}

#[test]
fn id_and_classes_parse() {
    let def = IdAndClasses::parse("#foo.bar.baz");
    assert_eq!(def.id, Some("foo"));
    assert_eq!(def.classes[0], Some("bar"));
    assert_eq!(def.classes[1], Some("baz"));
    assert_eq!(def.classes[2], None);

    let def = IdAndClasses::parse(".a#b.c");
    assert_eq!(def.id, Some("b"));
    assert_eq!(def.classes[0], Some("a"));
    assert_eq!(def.classes[1], Some("c"));

    let def = IdAndClasses::parse("plain");
    assert_eq!(def.id, None);
    assert_eq!(def.classes[0], None);
}

#[test]
fn element_from_id_and_classes() {
    let mut def = IdAndClasses::parse("#foo.bar");
    def.add_class("extra");
    let elt = Element::def("button", &def);
    let source = "button#foo.bar.extra { color: red; }";
    assert_eq!(compute_for(source, &elt).color, RED);
}
