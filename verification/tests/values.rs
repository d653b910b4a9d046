//! Tests for declaration values: lengths, colors, shorthands, errors.

use guicss::element::Element;
use guicss::media::{Environment, SystemTheme};
use guicss::parser::parse_string_sync;
use guicss::properties::{Color, ComputedProperties, Direction};

fn env() -> Environment {
    Environment::new("linux", SystemTheme::Light)
}

fn compute(source: &str) -> ComputedProperties {
    let rules = parse_string_sync(source, None, &env()).unwrap();
    rules.compute(&Element::named("hbox"))
}

#[test]
fn pixel_lengths_are_thousandths() {
    let p = compute("hbox { margin: 10px 20px; padding-left: .5px; width: 30px; }");
    assert_eq!(p.margin.top, 10_000);
    assert_eq!(p.margin.right, 20_000);
    assert_eq!(p.margin.bottom, 10_000);
    assert_eq!(p.margin.left, 20_000);
    assert_eq!(p.padding.left, 500);
    assert_eq!(p.width, Some(30_000));
}

#[test]
fn unitless_zero_is_accepted() {
    let p = compute("hbox { margin: 0; }");
    assert_eq!(p.margin.top, 0);
    assert_eq!(p.margin.left, 0);
}

#[test]
fn negative_and_fractional_lengths() {
    let p = compute("hbox { margin-top: -4px; margin-bottom: 1.25px; }");
    assert_eq!(p.margin.top, -4_000);
    assert_eq!(p.margin.bottom, 1_250);
}

#[test]
fn hex_and_rgb_colors() {
    let p = compute("hbox { color: #102030; background-color: rgb(1, 2, 3); }");
    assert_eq!(p.color, Color { r: 0x10, g: 0x20, b: 0x30, a: 255 });
    assert_eq!(p.background_color, Color { r: 1, g: 2, b: 3, a: 255 });
}

#[test]
fn short_hex_color() {
    // `black` has a hex form shorter than its name, so it serializes
    // compactly; both spellings must land on the same channels.
    let p = compute("hbox { color: black; background-color: #abc; }");
    assert_eq!(p.color, Color { r: 0, g: 0, b: 0, a: 255 });
    assert_eq!(p.background_color, Color { r: 0xaa, g: 0xbb, b: 0xcc, a: 255 });
}

#[test]
fn border_shorthand() {
    let p = compute("hbox { border: 2px solid red; }");
    let side = p.border.top;
    assert_eq!(side.width, 2_000);
    assert_eq!(side.color, Color { r: 255, g: 0, b: 0, a: 255 });
    assert_eq!(p.border.left, side);
    assert_eq!(p.border.right, side);
    assert_eq!(p.border.bottom, side);
}

#[test]
fn border_radius_two_values() {
    let p = compute("hbox { border-radius: 1px 2px; }");
    assert_eq!(p.border_radius.nw.x, 1_000);
    assert_eq!(p.border_radius.ne.x, 2_000);
    assert_eq!(p.border_radius.se.x, 1_000);
    assert_eq!(p.border_radius.sw.x, 2_000);
}

#[test]
fn flex_direction() {
    let p = compute("hbox { flex-direction: column; }");
    assert_eq!(p.direction, Direction::Vertical);
    let p = compute("hbox { flex-direction: row; }");
    assert_eq!(p.direction, Direction::Horizontal);
}

#[test]
fn unsupported_declarations_do_not_abort() {
    // An unknown property and an unsupported unit are skipped; the rest of
    // the block still applies.
    let p = compute("hbox { mystery-prop: 4; width: 50%; color: green; }");
    assert_eq!(p.color, Color { r: 0, g: 128, b: 0, a: 255 });
    assert_eq!(p.width, None);
}

#[test]
fn apply_reports_unsupported_declarations() {
    let mut p = ComputedProperties::default();
    assert!(p.apply("color", "red").is_ok());
    assert_eq!(p.color, Color { r: 255, g: 0, b: 0, a: 255 });

    let before = p;
    let err = p.apply("font-size", "2em");
    assert!(err.is_err());
    assert_eq!(p, before);
    let msg = err.unwrap_err();
    assert_eq!(msg, "unsupported declaration: font-size: 2em");
}

#[test]
fn color_to_opt() {
    assert_eq!(Color { r: 1, g: 2, b: 3, a: 0 }.to_opt(), None);
    let c = Color { r: 1, g: 2, b: 3, a: 9 };
    assert_eq!(c.to_opt(), Some(c));
}
