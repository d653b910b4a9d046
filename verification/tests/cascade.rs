//! End-to-end cascade tests: parse real CSS source and compute properties.

use guicss::element::Element;
use guicss::media::{Environment, SystemTheme};
use guicss::parser::parse_string_sync;
use guicss::properties::{Color, ComputedProperties};

const RED_COLOR: Color = Color { r: 255, g: 0, b: 0, a: 255 };
const GREEN_COLOR: Color = Color { r: 0, g: 128, b: 0, a: 255 };

fn light_env() -> Environment {
    Environment::new("linux", SystemTheme::Light)
}

fn green_prop() -> ComputedProperties {
    ComputedProperties {
        color: GREEN_COLOR,
        ..ComputedProperties::default()
    }
}

fn red_prop() -> ComputedProperties {
    ComputedProperties {
        color: RED_COLOR,
        ..ComputedProperties::default()
    }
}

#[test]
fn basic() {
    let source = r#"
    #foo {
      background-color: red;
    }
    hbox {
      color: green;
    }
    "#;

    let env = light_env();

    let rules = parse_string_sync(source, None, &env).unwrap();

    let elt = Element::named("hbox").id("foo");
    assert_eq!(
        rules.compute(&elt),
        ComputedProperties {
            background_color: RED_COLOR,
            color: GREEN_COLOR,
            ..ComputedProperties::default()
        }
    );

    let elt = Element::named("hbox");
    assert_eq!(rules.compute(&elt), green_prop());
}

#[test]
fn theme() {
    let source = r#"
    @media (prefers-color-scheme: light) {
      hbox {
        color: red;
      }
    }
    @media (prefers-color-scheme: dark) {
      hbox {
        color: green;
      }
    }
    "#;

    let env = Environment::new("linux", SystemTheme::Dark);

    let rules = parse_string_sync(source, None, &env).unwrap();

    let elt = Element::named("hbox");
    assert_eq!(rules.compute(&elt), green_prop());
}

#[test]
fn attributes_and_classes() {
    let env = light_env();
    let r1 = parse_string_sync("hbox[foo=bar] { color: red; }", None, &env).unwrap();
    let r2 = parse_string_sync("hbox.foo.bar { color: green; }", None, &env).unwrap();
    let elt1 = Element::named("hbox").attribute("foo", "bar");
    let elt2 = Element::named("hbox").class("foo").class("bar");
    assert_eq!(r1.compute(&elt1), red_prop());
    assert_eq!(r2.compute(&elt2), green_prop());
}
