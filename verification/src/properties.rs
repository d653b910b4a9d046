//! The output data model: typed style properties computed for one element.
//!
//! Pixel lengths are held as integers counting thousandths of a pixel, so
//! that `1500` stands for `1.5px`.

use vstd::prelude::*;

use crate::values::{
    chars_eq_str, chars_of, parse_color, parse_color_spec, parse_px, parse_px_spec, slash_run,
    slash_run_of, copy_range, split_tokens, split_ws, str_eq, trim, trim_chars,
};

verus! {

/// RGBA color, one byte per channel.
#[derive(Clone, Copy, Debug, PartialEq, Eq, Structural)]
pub struct Color {
    pub r: u8,
    pub g: u8,
    pub b: u8,
    pub a: u8,
}

impl Color {
    /// Fully transparent black: the default for every color property.
    pub fn transparent() -> (c: Color)
        ensures
            c == Color::spec_transparent(),
    {
        Color { r: 0, g: 0, b: 0, a: 0 }
    }

    /// The transparent color as a specification-level constant.
    pub open spec fn spec_transparent() -> Color {
        Color { r: 0, g: 0, b: 0, a: 0 }
    }

    /// `None` when the color is fully transparent, `Some` otherwise.
    pub fn to_opt(self) -> (r: Option<Color>)
        ensures
            r == (if self.a == 0 {
                Option::<Color>::None
            } else {
                Option::<Color>::Some(self)
            }),
    {
        if self.a == 0 {
            None
        } else {
            Some(self)
        }
    }
}

impl Default for Color {
    fn default() -> (c: Color)
        ensures
            c == Color::spec_transparent(),
    {
        Color::transparent()
    }
}

/// Layout direction of a container.
#[derive(Clone, Copy, Debug, PartialEq, Eq, Structural)]
pub enum Direction {
    Horizontal,
    Vertical,
}

impl Default for Direction {
    fn default() -> (d: Direction)
        ensures
            d == Direction::Horizontal,
    {
        Direction::Horizontal
    }
}

/// A corner radius: horizontal and vertical component.
#[derive(Clone, Copy, Debug, PartialEq, Eq, Structural)]
pub struct Radius<T> {
    pub x: T,
    pub y: T,
}

/// Four values, one for each corner of an element.
#[derive(Clone, Copy, Debug, PartialEq, Eq, Structural)]
pub struct Corners<T> {
    pub nw: Radius<T>,
    pub ne: Radius<T>,
    pub sw: Radius<T>,
    pub se: Radius<T>,
}

/// Four values, one for each side of an element.
#[derive(Clone, Copy, Debug, PartialEq, Eq, Structural)]
pub struct Sides<T> {
    pub top: T,
    pub right: T,
    pub bottom: T,
    pub left: T,
}

/// Width and color of one border side.
#[derive(Clone, Copy, Debug, PartialEq, Eq, Structural)]
pub struct WidthAndColor {
    /// Border width in thousandths of a pixel.
    pub width: i64,
    pub color: Color,
}

/// All properties computed for a matching element.
///
/// Lengths are in thousandths of a pixel.
#[derive(Clone, Copy, Debug, PartialEq, Eq, Structural)]
pub struct ComputedProperties {
    pub border_radius: Corners<i64>,
    pub border: Sides<WidthAndColor>,
    pub margin: Sides<i64>,
    pub padding: Sides<i64>,
    pub background_color: Color,
    pub color: Color,
    pub width: Option<i64>,
    pub height: Option<i64>,
    pub min_width: Option<i64>,
    pub min_height: Option<i64>,
    pub max_width: Option<i64>,
    pub max_height: Option<i64>,
    pub direction: Direction,
}

impl ComputedProperties {
    /// The all-default record: transparent colors, zero sides, unset
    /// dimensions, horizontal direction.
    pub open spec fn spec_default() -> ComputedProperties {
        ComputedProperties {
            border_radius: Corners { nw: Radius { x: 0, y: 0 }, ne: Radius { x: 0, y: 0 }, sw: Radius { x: 0, y: 0 }, se: Radius { x: 0, y: 0 } },
            border: Sides {
                top: WidthAndColor { width: 0, color: Color::spec_transparent() },
                right: WidthAndColor { width: 0, color: Color::spec_transparent() },
                bottom: WidthAndColor { width: 0, color: Color::spec_transparent() },
                left: WidthAndColor { width: 0, color: Color::spec_transparent() },
            },
            margin: Sides { top: 0, right: 0, bottom: 0, left: 0 },
            padding: Sides { top: 0, right: 0, bottom: 0, left: 0 },
            background_color: Color::spec_transparent(),
            color: Color::spec_transparent(),
            width: None,
            height: None,
            min_width: None,
            min_height: None,
            max_width: None,
            max_height: None,
            direction: Direction::Horizontal,
        }
    }
}

impl Default for ComputedProperties {
    fn default() -> (c: ComputedProperties)
        ensures
            c == ComputedProperties::spec_default(),
    {
        ComputedProperties {
            border_radius: Corners { nw: Radius { x: 0, y: 0 }, ne: Radius { x: 0, y: 0 }, sw: Radius { x: 0, y: 0 }, se: Radius { x: 0, y: 0 } },
            border: Sides {
                top: WidthAndColor { width: 0, color: Color::transparent() },
                right: WidthAndColor { width: 0, color: Color::transparent() },
                bottom: WidthAndColor { width: 0, color: Color::transparent() },
                left: WidthAndColor { width: 0, color: Color::transparent() },
            },
            margin: Sides { top: 0, right: 0, bottom: 0, left: 0 },
            padding: Sides { top: 0, right: 0, bottom: 0, left: 0 },
            background_color: Color::transparent(),
            color: Color::transparent(),
            width: None,
            height: None,
            min_width: None,
            min_height: None,
            max_width: None,
            max_height: None,
            direction: Direction::Horizontal,
        }
    }
}


/// A single-length value: exactly one pixel token.
pub open spec fn px1_spec(value: Seq<char>) -> Option<i64> {
    let ts = split_ws(value);
    if ts.len() == 1 {
        parse_px_spec(ts[0])
    } else {
        None
    }
}

/// A one-to-four-length shorthand, expanded to four sides the CSS way.
pub open spec fn px_sides_spec(value: Seq<char>) -> Option<Sides<i64>> {
    let ts = split_ws(value);
    if ts.len() == 1 {
        match parse_px_spec(ts[0]) {
            Some(v) => Some(Sides { top: v, right: v, bottom: v, left: v }),
            None => None,
        }
    } else if ts.len() == 2 {
        match (parse_px_spec(ts[0]), parse_px_spec(ts[1])) {
            (Some(a), Some(b)) => Some(Sides { top: a, right: b, bottom: a, left: b }),
            _ => None,
        }
    } else if ts.len() == 3 {
        match (parse_px_spec(ts[0]), parse_px_spec(ts[1]), parse_px_spec(ts[2])) {
            (Some(a), Some(b), Some(c)) => Some(Sides { top: a, right: b, bottom: c, left: b }),
            _ => None,
        }
    } else if ts.len() == 4 {
        match (parse_px_spec(ts[0]), parse_px_spec(ts[1]), parse_px_spec(ts[2]), parse_px_spec(
            ts[3],
        )) {
            (Some(a), Some(b), Some(c), Some(d)) => Some(
                Sides { top: a, right: b, bottom: c, left: d },
            ),
            _ => None,
        }
    } else {
        None
    }
}

/// A single color value.
pub open spec fn color1_spec(value: Seq<char>) -> Option<Color> {
    parse_color_spec(trim(value))
}

/// A one-to-four-color shorthand, expanded to four sides the CSS way.
pub open spec fn color_sides_spec(value: Seq<char>) -> Option<Sides<Color>> {
    let ts = split_ws(value);
    if ts.len() == 1 {
        match parse_color_spec(ts[0]) {
            Some(v) => Some(Sides { top: v, right: v, bottom: v, left: v }),
            None => None,
        }
    } else if ts.len() == 2 {
        match (parse_color_spec(ts[0]), parse_color_spec(ts[1])) {
            (Some(a), Some(b)) => Some(Sides { top: a, right: b, bottom: a, left: b }),
            _ => None,
        }
    } else if ts.len() == 3 {
        match (parse_color_spec(ts[0]), parse_color_spec(ts[1]), parse_color_spec(ts[2])) {
            (Some(a), Some(b), Some(c)) => Some(Sides { top: a, right: b, bottom: c, left: b }),
            _ => None,
        }
    } else if ts.len() == 4 {
        match (parse_color_spec(ts[0]), parse_color_spec(ts[1]), parse_color_spec(ts[2]),
        parse_color_spec(ts[3])) {
            (Some(a), Some(b), Some(c), Some(d)) => Some(
                Sides { top: a, right: b, bottom: c, left: d },
            ),
            _ => None,
        }
    } else {
        None
    }
}

/// A border-style keyword; styles are accepted and ignored.
pub open spec fn is_style_keyword(t: Seq<char>) -> bool {
    t == "none"@ || t == "hidden"@ || t == "dotted"@ || t == "dashed"@ || t == "solid"@ || t
        == "double"@ || t == "groove"@ || t == "ridge"@ || t == "inset"@ || t == "outset"@
}

/// Scans border shorthand tokens left to right, collecting at most one
/// width and one color; style keywords are skipped.
pub open spec fn border_scan(ts: Seq<Seq<char>>) -> Option<(Option<i64>, Option<Color>)>
    decreases ts.len(),
{
    if ts.len() == 0 {
        Some((None, None))
    } else {
        match border_scan(ts.drop_last()) {
            None => None,
            Some((w, c)) => {
                let t = ts.last();
                if parse_px_spec(t) is Some {
                    if w is Some {
                        None
                    } else {
                        Some((Some(parse_px_spec(t).unwrap()), c))
                    }
                } else if is_style_keyword(t) {
                    Some((w, c))
                } else if parse_color_spec(t) is Some {
                    if c is Some {
                        None
                    } else {
                        Some((w, Some(parse_color_spec(t).unwrap())))
                    }
                } else {
                    None
                }
            },
        }
    }
}

/// A border shorthand: one width, an optional style keyword, one color.
pub open spec fn border1_spec(value: Seq<char>) -> Option<WidthAndColor> {
    match border_scan(split_ws(value)) {
        Some((Some(w), Some(c))) => Some(WidthAndColor { width: w, color: c }),
        _ => None,
    }
}

/// One to four pixel tokens, expanded to the four corners in CSS order:
/// top-left, top-right, bottom-right, bottom-left.
pub open spec fn px_corners_spec(part: Seq<char>) -> Option<(i64, i64, i64, i64)> {
    let ts = split_ws(part);
    if ts.len() == 1 {
        match parse_px_spec(ts[0]) {
            Some(v) => Some((v, v, v, v)),
            None => None,
        }
    } else if ts.len() == 2 {
        match (parse_px_spec(ts[0]), parse_px_spec(ts[1])) {
            (Some(a), Some(b)) => Some((a, b, a, b)),
            _ => None,
        }
    } else if ts.len() == 3 {
        match (parse_px_spec(ts[0]), parse_px_spec(ts[1]), parse_px_spec(ts[2])) {
            (Some(a), Some(b), Some(c)) => Some((a, b, c, b)),
            _ => None,
        }
    } else if ts.len() == 4 {
        match (parse_px_spec(ts[0]), parse_px_spec(ts[1]), parse_px_spec(ts[2]), parse_px_spec(
            ts[3],
        )) {
            (Some(a), Some(b), Some(c), Some(d)) => Some((a, b, c, d)),
            _ => None,
        }
    } else {
        None
    }
}

/// The `border-radius` shorthand: horizontal radii, then optionally a
/// slash and the vertical radii.
pub open spec fn radius_corners_spec(value: Seq<char>) -> Option<Corners<i64>> {
    let p = slash_run(value) as int;
    let hpart = value.take(p);
    let vpart = if p == value.len() {
        value
    } else {
        value.skip(p + 1)
    };
    match (px_corners_spec(hpart), px_corners_spec(vpart)) {
        (Some(h), Some(v)) => Some(
            Corners {
                nw: Radius { x: h.0, y: v.0 },
                ne: Radius { x: h.1, y: v.1 },
                se: Radius { x: h.2, y: v.2 },
                sw: Radius { x: h.3, y: v.3 },
            },
        ),
        _ => None,
    }
}

/// A corner-radius longhand: one or two pixel tokens.
pub open spec fn radius1_spec(value: Seq<char>) -> Option<Radius<i64>> {
    let ts = split_ws(value);
    if ts.len() == 1 {
        match parse_px_spec(ts[0]) {
            Some(v) => Some(Radius { x: v, y: v }),
            None => None,
        }
    } else if ts.len() == 2 {
        match (parse_px_spec(ts[0]), parse_px_spec(ts[1])) {
            (Some(a), Some(b)) => Some(Radius { x: a, y: b }),
            _ => None,
        }
    } else {
        None
    }
}

/// A flex-direction value: `row` or `column`.
pub open spec fn direction_spec(value: Seq<char>) -> Option<Direction> {
    let ts = split_ws(value);
    if ts.len() == 1 && ts[0] == "row"@ {
        Some(Direction::Horizontal)
    } else if ts.len() == 1 && ts[0] == "column"@ {
        Some(Direction::Vertical)
    } else {
        None
    }
}

/// One parsed, supported declaration value, ready to be applied.
#[derive(Clone, Copy, Debug, PartialEq, Eq, Structural)]
pub enum ParsedProperty {
    Width(i64),
    Height(i64),
    MinWidth(i64),
    MinHeight(i64),
    MaxWidth(i64),
    MaxHeight(i64),
    FlexDirection(Direction),
    PaddingTop(i64),
    PaddingRight(i64),
    PaddingBottom(i64),
    PaddingLeft(i64),
    Padding(Sides<i64>),
    MarginTop(i64),
    MarginRight(i64),
    MarginBottom(i64),
    MarginLeft(i64),
    Margin(Sides<i64>),
    Color(Color),
    BackgroundColor(Color),
    BorderTopColor(Color),
    BorderRightColor(Color),
    BorderBottomColor(Color),
    BorderLeftColor(Color),
    BorderColor(Sides<Color>),
    BorderTopWidth(i64),
    BorderRightWidth(i64),
    BorderBottomWidth(i64),
    BorderLeftWidth(i64),
    BorderWidth(Sides<i64>),
    Border(WidthAndColor),
    BorderTopLeftRadius(Radius<i64>),
    BorderTopRightRadius(Radius<i64>),
    BorderBottomLeftRadius(Radius<i64>),
    BorderBottomRightRadius(Radius<i64>),
    BorderRadius(Corners<i64>),
}

/// What a declaration means: `None` when the property name or its value
/// shape is unsupported, otherwise the parsed property.
#[verifier::opaque]
pub open spec fn interp_spec(name: Seq<char>, value: Seq<char>) -> Option<ParsedProperty> {
    if name == "width"@ {
        match px1_spec(value) {
            Some(v) => Some(ParsedProperty::Width(v)),
            None => None,
        }
    } else if name == "height"@ {
        match px1_spec(value) {
            Some(v) => Some(ParsedProperty::Height(v)),
            None => None,
        }
    } else if name == "min-width"@ {
        match px1_spec(value) {
            Some(v) => Some(ParsedProperty::MinWidth(v)),
            None => None,
        }
    } else if name == "min-height"@ {
        match px1_spec(value) {
            Some(v) => Some(ParsedProperty::MinHeight(v)),
            None => None,
        }
    } else if name == "max-width"@ {
        match px1_spec(value) {
            Some(v) => Some(ParsedProperty::MaxWidth(v)),
            None => None,
        }
    } else if name == "max-height"@ {
        match px1_spec(value) {
            Some(v) => Some(ParsedProperty::MaxHeight(v)),
            None => None,
        }
    } else if name == "padding-top"@ {
        match px1_spec(value) {
            Some(v) => Some(ParsedProperty::PaddingTop(v)),
            None => None,
        }
    } else if name == "padding-right"@ {
        match px1_spec(value) {
            Some(v) => Some(ParsedProperty::PaddingRight(v)),
            None => None,
        }
    } else if name == "padding-bottom"@ {
        match px1_spec(value) {
            Some(v) => Some(ParsedProperty::PaddingBottom(v)),
            None => None,
        }
    } else if name == "padding-left"@ {
        match px1_spec(value) {
            Some(v) => Some(ParsedProperty::PaddingLeft(v)),
            None => None,
        }
    } else if name == "margin-top"@ {
        match px1_spec(value) {
            Some(v) => Some(ParsedProperty::MarginTop(v)),
            None => None,
        }
    } else if name == "margin-right"@ {
        match px1_spec(value) {
            Some(v) => Some(ParsedProperty::MarginRight(v)),
            None => None,
        }
    } else if name == "margin-bottom"@ {
        match px1_spec(value) {
            Some(v) => Some(ParsedProperty::MarginBottom(v)),
            None => None,
        }
    } else if name == "margin-left"@ {
        match px1_spec(value) {
            Some(v) => Some(ParsedProperty::MarginLeft(v)),
            None => None,
        }
    } else if name == "border-top-width"@ {
        match px1_spec(value) {
            Some(v) => Some(ParsedProperty::BorderTopWidth(v)),
            None => None,
        }
    } else if name == "border-right-width"@ {
        match px1_spec(value) {
            Some(v) => Some(ParsedProperty::BorderRightWidth(v)),
            None => None,
        }
    } else if name == "border-bottom-width"@ {
        match px1_spec(value) {
            Some(v) => Some(ParsedProperty::BorderBottomWidth(v)),
            None => None,
        }
    } else if name == "border-left-width"@ {
        match px1_spec(value) {
            Some(v) => Some(ParsedProperty::BorderLeftWidth(v)),
            None => None,
        }
    } else if name == "color"@ {
        match color1_spec(value) {
            Some(v) => Some(ParsedProperty::Color(v)),
            None => None,
        }
    } else if name == "background-color"@ {
        match color1_spec(value) {
            Some(v) => Some(ParsedProperty::BackgroundColor(v)),
            None => None,
        }
    } else if name == "border-top-color"@ {
        match color1_spec(value) {
            Some(v) => Some(ParsedProperty::BorderTopColor(v)),
            None => None,
        }
    } else if name == "border-right-color"@ {
        match color1_spec(value) {
            Some(v) => Some(ParsedProperty::BorderRightColor(v)),
            None => None,
        }
    } else if name == "border-bottom-color"@ {
        match color1_spec(value) {
            Some(v) => Some(ParsedProperty::BorderBottomColor(v)),
            None => None,
        }
    } else if name == "border-left-color"@ {
        match color1_spec(value) {
            Some(v) => Some(ParsedProperty::BorderLeftColor(v)),
            None => None,
        }
    } else if name == "padding"@ {
        match px_sides_spec(value) {
            Some(v) => Some(ParsedProperty::Padding(v)),
            None => None,
        }
    } else if name == "margin"@ {
        match px_sides_spec(value) {
            Some(v) => Some(ParsedProperty::Margin(v)),
            None => None,
        }
    } else if name == "border-width"@ {
        match px_sides_spec(value) {
            Some(v) => Some(ParsedProperty::BorderWidth(v)),
            None => None,
        }
    } else if name == "border-color"@ {
        match color_sides_spec(value) {
            Some(v) => Some(ParsedProperty::BorderColor(v)),
            None => None,
        }
    } else if name == "border"@ {
        match border1_spec(value) {
            Some(v) => Some(ParsedProperty::Border(v)),
            None => None,
        }
    } else if name == "border-top-left-radius"@ {
        match radius1_spec(value) {
            Some(v) => Some(ParsedProperty::BorderTopLeftRadius(v)),
            None => None,
        }
    } else if name == "border-top-right-radius"@ {
        match radius1_spec(value) {
            Some(v) => Some(ParsedProperty::BorderTopRightRadius(v)),
            None => None,
        }
    } else if name == "border-bottom-left-radius"@ {
        match radius1_spec(value) {
            Some(v) => Some(ParsedProperty::BorderBottomLeftRadius(v)),
            None => None,
        }
    } else if name == "border-bottom-right-radius"@ {
        match radius1_spec(value) {
            Some(v) => Some(ParsedProperty::BorderBottomRightRadius(v)),
            None => None,
        }
    } else if name == "border-radius"@ {
        match radius_corners_spec(value) {
            Some(v) => Some(ParsedProperty::BorderRadius(v)),
            None => None,
        }
    } else if name == "flex-direction"@ {
        match direction_spec(value) {
            Some(v) => Some(ParsedProperty::FlexDirection(v)),
            None => None,
        }
    } else {
        None
    }
}

/// Parses one declaration; exactly [`interp_spec`].
pub fn interp(name: &str, value: &str) -> (r: Option<ParsedProperty>)
    ensures
        r == interp_spec(name@, value@),
{
    proof {
        reveal(interp_spec);
    }
    if str_eq(name, "width") {
        match px_one(value) {
            Some(v) => Some(ParsedProperty::Width(v)),
            None => None,
        }
    } else if str_eq(name, "height") {
        match px_one(value) {
            Some(v) => Some(ParsedProperty::Height(v)),
            None => None,
        }
    } else if str_eq(name, "min-width") {
        match px_one(value) {
            Some(v) => Some(ParsedProperty::MinWidth(v)),
            None => None,
        }
    } else if str_eq(name, "min-height") {
        match px_one(value) {
            Some(v) => Some(ParsedProperty::MinHeight(v)),
            None => None,
        }
    } else if str_eq(name, "max-width") {
        match px_one(value) {
            Some(v) => Some(ParsedProperty::MaxWidth(v)),
            None => None,
        }
    } else if str_eq(name, "max-height") {
        match px_one(value) {
            Some(v) => Some(ParsedProperty::MaxHeight(v)),
            None => None,
        }
    } else if str_eq(name, "padding-top") {
        match px_one(value) {
            Some(v) => Some(ParsedProperty::PaddingTop(v)),
            None => None,
        }
    } else if str_eq(name, "padding-right") {
        match px_one(value) {
            Some(v) => Some(ParsedProperty::PaddingRight(v)),
            None => None,
        }
    } else if str_eq(name, "padding-bottom") {
        match px_one(value) {
            Some(v) => Some(ParsedProperty::PaddingBottom(v)),
            None => None,
        }
    } else if str_eq(name, "padding-left") {
        match px_one(value) {
            Some(v) => Some(ParsedProperty::PaddingLeft(v)),
            None => None,
        }
    } else if str_eq(name, "margin-top") {
        match px_one(value) {
            Some(v) => Some(ParsedProperty::MarginTop(v)),
            None => None,
        }
    } else if str_eq(name, "margin-right") {
        match px_one(value) {
            Some(v) => Some(ParsedProperty::MarginRight(v)),
            None => None,
        }
    } else if str_eq(name, "margin-bottom") {
        match px_one(value) {
            Some(v) => Some(ParsedProperty::MarginBottom(v)),
            None => None,
        }
    } else if str_eq(name, "margin-left") {
        match px_one(value) {
            Some(v) => Some(ParsedProperty::MarginLeft(v)),
            None => None,
        }
    } else if str_eq(name, "border-top-width") {
        match px_one(value) {
            Some(v) => Some(ParsedProperty::BorderTopWidth(v)),
            None => None,
        }
    } else if str_eq(name, "border-right-width") {
        match px_one(value) {
            Some(v) => Some(ParsedProperty::BorderRightWidth(v)),
            None => None,
        }
    } else if str_eq(name, "border-bottom-width") {
        match px_one(value) {
            Some(v) => Some(ParsedProperty::BorderBottomWidth(v)),
            None => None,
        }
    } else if str_eq(name, "border-left-width") {
        match px_one(value) {
            Some(v) => Some(ParsedProperty::BorderLeftWidth(v)),
            None => None,
        }
    } else if str_eq(name, "color") {
        match color_one(value) {
            Some(v) => Some(ParsedProperty::Color(v)),
            None => None,
        }
    } else if str_eq(name, "background-color") {
        match color_one(value) {
            Some(v) => Some(ParsedProperty::BackgroundColor(v)),
            None => None,
        }
    } else if str_eq(name, "border-top-color") {
        match color_one(value) {
            Some(v) => Some(ParsedProperty::BorderTopColor(v)),
            None => None,
        }
    } else if str_eq(name, "border-right-color") {
        match color_one(value) {
            Some(v) => Some(ParsedProperty::BorderRightColor(v)),
            None => None,
        }
    } else if str_eq(name, "border-bottom-color") {
        match color_one(value) {
            Some(v) => Some(ParsedProperty::BorderBottomColor(v)),
            None => None,
        }
    } else if str_eq(name, "border-left-color") {
        match color_one(value) {
            Some(v) => Some(ParsedProperty::BorderLeftColor(v)),
            None => None,
        }
    } else if str_eq(name, "padding") {
        match px_sides_of(value) {
            Some(v) => Some(ParsedProperty::Padding(v)),
            None => None,
        }
    } else if str_eq(name, "margin") {
        match px_sides_of(value) {
            Some(v) => Some(ParsedProperty::Margin(v)),
            None => None,
        }
    } else if str_eq(name, "border-width") {
        match px_sides_of(value) {
            Some(v) => Some(ParsedProperty::BorderWidth(v)),
            None => None,
        }
    } else if str_eq(name, "border-color") {
        match color_sides_of(value) {
            Some(v) => Some(ParsedProperty::BorderColor(v)),
            None => None,
        }
    } else if str_eq(name, "border") {
        match border_of(value) {
            Some(v) => Some(ParsedProperty::Border(v)),
            None => None,
        }
    } else if str_eq(name, "border-top-left-radius") {
        match radius_one(value) {
            Some(v) => Some(ParsedProperty::BorderTopLeftRadius(v)),
            None => None,
        }
    } else if str_eq(name, "border-top-right-radius") {
        match radius_one(value) {
            Some(v) => Some(ParsedProperty::BorderTopRightRadius(v)),
            None => None,
        }
    } else if str_eq(name, "border-bottom-left-radius") {
        match radius_one(value) {
            Some(v) => Some(ParsedProperty::BorderBottomLeftRadius(v)),
            None => None,
        }
    } else if str_eq(name, "border-bottom-right-radius") {
        match radius_one(value) {
            Some(v) => Some(ParsedProperty::BorderBottomRightRadius(v)),
            None => None,
        }
    } else if str_eq(name, "border-radius") {
        match radius_corners_of(value) {
            Some(v) => Some(ParsedProperty::BorderRadius(v)),
            None => None,
        }
    } else if str_eq(name, "flex-direction") {
        match direction_of(value) {
            Some(v) => Some(ParsedProperty::FlexDirection(v)),
            None => None,
        }
    } else {
        None
    }
}


/// Links the tokens of a split to the specification-level split.
proof fn lemma_tokens_view(ts: Vec<Vec<char>>)
    ensures
        forall|j: int| 0 <= j < ts@.len() ==> #[trigger] ts.deep_view()[j] == ts@[j]@,
{
    assert forall|j: int| 0 <= j < ts@.len() implies #[trigger] ts.deep_view()[j] == ts@[j]@ by {
        assert(ts.deep_view()[j] == ts@[j].deep_view());
        assert(ts@[j].deep_view() =~= ts@[j]@);
    }
}

/// Parses a single pixel-length value; exactly [`px1_spec`].
fn px_one(value: &str) -> (r: Option<i64>)
    ensures
        r == px1_spec(value@),
{
    let chars = chars_of(value);
    let ts = split_tokens(&chars);
    if ts.len() == 1 {
        proof {
            lemma_tokens_view(ts);
        }
        parse_px(&ts[0])
    } else {
        None
    }
}

/// Parses a single color value; exactly [`color1_spec`].
fn color_one(value: &str) -> (r: Option<Color>)
    ensures
        r == color1_spec(value@),
{
    let chars = chars_of(value);
    let t = trim_chars(&chars);
    parse_color(&t)
}

/// Parses a one-to-four-length shorthand; exactly [`px_sides_spec`].
fn px_sides_of(value: &str) -> (r: Option<Sides<i64>>)
    ensures
        r == px_sides_spec(value@),
{
    let chars = chars_of(value);
    let ts = split_tokens(&chars);
    proof {
        lemma_tokens_view(ts);
    }
    if ts.len() == 1 {
        match parse_px(&ts[0]) {
            Some(v) => Some(Sides { top: v, right: v, bottom: v, left: v }),
            None => None,
        }
    } else if ts.len() == 2 {
        match (parse_px(&ts[0]), parse_px(&ts[1])) {
            (Some(a), Some(b)) => Some(Sides { top: a, right: b, bottom: a, left: b }),
            _ => None,
        }
    } else if ts.len() == 3 {
        match (parse_px(&ts[0]), parse_px(&ts[1]), parse_px(&ts[2])) {
            (Some(a), Some(b), Some(c)) => Some(Sides { top: a, right: b, bottom: c, left: b }),
            _ => None,
        }
    } else if ts.len() == 4 {
        match (parse_px(&ts[0]), parse_px(&ts[1]), parse_px(&ts[2]), parse_px(&ts[3])) {
            (Some(a), Some(b), Some(c), Some(d)) => Some(
                Sides { top: a, right: b, bottom: c, left: d },
            ),
            _ => None,
        }
    } else {
        None
    }
}

/// Parses a one-to-four-color shorthand; exactly [`color_sides_spec`].
fn color_sides_of(value: &str) -> (r: Option<Sides<Color>>)
    ensures
        r == color_sides_spec(value@),
{
    let chars = chars_of(value);
    let ts = split_tokens(&chars);
    proof {
        lemma_tokens_view(ts);
    }
    if ts.len() == 1 {
        match parse_color(&ts[0]) {
            Some(v) => Some(Sides { top: v, right: v, bottom: v, left: v }),
            None => None,
        }
    } else if ts.len() == 2 {
        match (parse_color(&ts[0]), parse_color(&ts[1])) {
            (Some(a), Some(b)) => Some(Sides { top: a, right: b, bottom: a, left: b }),
            _ => None,
        }
    } else if ts.len() == 3 {
        match (parse_color(&ts[0]), parse_color(&ts[1]), parse_color(&ts[2])) {
            (Some(a), Some(b), Some(c)) => Some(Sides { top: a, right: b, bottom: c, left: b }),
            _ => None,
        }
    } else if ts.len() == 4 {
        match (parse_color(&ts[0]), parse_color(&ts[1]), parse_color(&ts[2]), parse_color(
            &ts[3],
        )) {
            (Some(a), Some(b), Some(c), Some(d)) => Some(
                Sides { top: a, right: b, bottom: c, left: d },
            ),
            _ => None,
        }
    } else {
        None
    }
}

/// Whether the token is a border-style keyword.
fn style_keyword(t: &Vec<char>) -> (r: bool)
    ensures
        r == is_style_keyword(t@),
{
    chars_eq_str(t, "none") || chars_eq_str(t, "hidden") || chars_eq_str(t, "dotted")
        || chars_eq_str(t, "dashed") || chars_eq_str(t, "solid") || chars_eq_str(t, "double")
        || chars_eq_str(t, "groove") || chars_eq_str(t, "ridge") || chars_eq_str(t, "inset")
        || chars_eq_str(t, "outset")
}

/// Parses a border shorthand; exactly [`border1_spec`].
fn border_of(value: &str) -> (r: Option<WidthAndColor>)
    ensures
        r == border1_spec(value@),
{
    let chars = chars_of(value);
    let ts = split_tokens(&chars);
    let ghost tsv = ts.deep_view();
    let len = ts.len();
    let mut wopt: Option<i64> = None;
    let mut copt: Option<Color> = None;
    let mut failed = false;
    let mut i: usize = 0;
    proof {
        assert(tsv.take(0) =~= Seq::<Seq<char>>::empty());
    }
    while i < len
        invariant
            i <= len,
            len == ts.len(),
            tsv == ts.deep_view(),
            failed ==> border_scan(tsv.take(i as int)) is None,
            !failed ==> border_scan(tsv.take(i as int)) == Some::<(Option<i64>, Option<Color>)>(
                (wopt, copt),
            ),
        decreases len - i,
    {
        proof {
            assert(tsv.take(i + 1).drop_last() =~= tsv.take(i as int));
            assert(tsv.take(i + 1).last() == tsv[i as int]);
            lemma_tokens_view(ts);
        }
        if !failed {
            match parse_px(&ts[i]) {
                Some(w) => {
                    if wopt.is_some() {
                        failed = true;
                    } else {
                        wopt = Some(w);
                    }
                },
                None => {
                    if style_keyword(&ts[i]) {
                    } else {
                        match parse_color(&ts[i]) {
                            Some(c) => {
                                if copt.is_some() {
                                    failed = true;
                                } else {
                                    copt = Some(c);
                                }
                            },
                            None => {
                                failed = true;
                            },
                        }
                    }
                },
            }
        }
        i = i + 1;
    }
    proof {
        assert(tsv.take(len as int) =~= tsv);
        assert(tsv == split_ws(value@));
    }
    if failed {
        None
    } else {
        match (wopt, copt) {
            (Some(w), Some(c)) => Some(WidthAndColor { width: w, color: c }),
            _ => None,
        }
    }
}

/// Parses one to four pixel tokens into corner order; exactly
/// [`px_corners_spec`].
fn px_corners_of(part: &Vec<char>) -> (r: Option<(i64, i64, i64, i64)>)
    ensures
        r == px_corners_spec(part@),
{
    let ts = split_tokens(part);
    proof {
        lemma_tokens_view(ts);
    }
    if ts.len() == 1 {
        match parse_px(&ts[0]) {
            Some(v) => Some((v, v, v, v)),
            None => None,
        }
    } else if ts.len() == 2 {
        match (parse_px(&ts[0]), parse_px(&ts[1])) {
            (Some(a), Some(b)) => Some((a, b, a, b)),
            _ => None,
        }
    } else if ts.len() == 3 {
        match (parse_px(&ts[0]), parse_px(&ts[1]), parse_px(&ts[2])) {
            (Some(a), Some(b), Some(c)) => Some((a, b, c, b)),
            _ => None,
        }
    } else if ts.len() == 4 {
        match (parse_px(&ts[0]), parse_px(&ts[1]), parse_px(&ts[2]), parse_px(&ts[3])) {
            (Some(a), Some(b), Some(c), Some(d)) => Some((a, b, c, d)),
            _ => None,
        }
    } else {
        None
    }
}

/// Parses the `border-radius` shorthand; exactly [`radius_corners_spec`].
fn radius_corners_of(value: &str) -> (r: Option<Corners<i64>>)
    ensures
        r == radius_corners_spec(value@),
{
    let chars = chars_of(value);
    let p = slash_run_of(&chars);
    let len = chars.len();
    let hpart = copy_range(&chars, 0, p);
    proof {
        assert(hpart@ =~= value@.take(p as int));
    }
    let h = px_corners_of(&hpart);
    let v = if p == len {
        proof {
            assert(value@.take(p as int) =~= value@);
        }
        px_corners_of(&hpart)
    } else {
        let vpart = copy_range(&chars, p + 1, len);
        proof {
            assert(vpart@ =~= value@.skip(p + 1));
        }
        px_corners_of(&vpart)
    };
    match (h, v) {
        (Some(h), Some(v)) => Some(
            Corners {
                nw: Radius { x: h.0, y: v.0 },
                ne: Radius { x: h.1, y: v.1 },
                se: Radius { x: h.2, y: v.2 },
                sw: Radius { x: h.3, y: v.3 },
            },
        ),
        _ => None,
    }
}

/// Parses a corner-radius longhand; exactly [`radius1_spec`].
fn radius_one(value: &str) -> (r: Option<Radius<i64>>)
    ensures
        r == radius1_spec(value@),
{
    let chars = chars_of(value);
    let ts = split_tokens(&chars);
    if ts.len() == 1 {
        proof {
            lemma_tokens_view(ts);
        }
        match parse_px(&ts[0]) {
            Some(v) => Some(Radius { x: v, y: v }),
            None => None,
        }
    } else if ts.len() == 2 {
        proof {
            lemma_tokens_view(ts);
        }
        match (parse_px(&ts[0]), parse_px(&ts[1])) {
            (Some(a), Some(b)) => Some(Radius { x: a, y: b }),
            _ => None,
        }
    } else {
        None
    }
}

/// Parses a flex-direction value; exactly [`direction_spec`].
fn direction_of(value: &str) -> (r: Option<Direction>)
    ensures
        r == direction_spec(value@),
{
    let chars = chars_of(value);
    let ts = split_tokens(&chars);
    if ts.len() == 1 {
        proof {
            lemma_tokens_view(ts);
        }
        if chars_eq_str(&ts[0], "row") {
            Some(Direction::Horizontal)
        } else if chars_eq_str(&ts[0], "column") {
            Some(Direction::Vertical)
        } else {
            None
        }
    } else {
        None
    }
}

/// The record after one property lands on it: exactly the fields that the
/// property targets change, all others stay.
pub open spec fn apply_prop(cp: ComputedProperties, p: ParsedProperty) -> ComputedProperties {
    match p {
        ParsedProperty::Width(v) => ComputedProperties { width: Some(v), ..cp },
        ParsedProperty::Height(v) => ComputedProperties { height: Some(v), ..cp },
        ParsedProperty::MinWidth(v) => ComputedProperties { min_width: Some(v), ..cp },
        ParsedProperty::MinHeight(v) => ComputedProperties { min_height: Some(v), ..cp },
        ParsedProperty::MaxWidth(v) => ComputedProperties { max_width: Some(v), ..cp },
        ParsedProperty::MaxHeight(v) => ComputedProperties { max_height: Some(v), ..cp },
        ParsedProperty::FlexDirection(d) => ComputedProperties { direction: d, ..cp },
        ParsedProperty::PaddingTop(v) => ComputedProperties {
            padding: Sides { top: v, ..cp.padding },
            ..cp
        },
        ParsedProperty::PaddingRight(v) => ComputedProperties {
            padding: Sides { right: v, ..cp.padding },
            ..cp
        },
        ParsedProperty::PaddingBottom(v) => ComputedProperties {
            padding: Sides { bottom: v, ..cp.padding },
            ..cp
        },
        ParsedProperty::PaddingLeft(v) => ComputedProperties {
            padding: Sides { left: v, ..cp.padding },
            ..cp
        },
        ParsedProperty::Padding(s) => ComputedProperties { padding: s, ..cp },
        ParsedProperty::MarginTop(v) => ComputedProperties {
            margin: Sides { top: v, ..cp.margin },
            ..cp
        },
        ParsedProperty::MarginRight(v) => ComputedProperties {
            margin: Sides { right: v, ..cp.margin },
            ..cp
        },
        ParsedProperty::MarginBottom(v) => ComputedProperties {
            margin: Sides { bottom: v, ..cp.margin },
            ..cp
        },
        ParsedProperty::MarginLeft(v) => ComputedProperties {
            margin: Sides { left: v, ..cp.margin },
            ..cp
        },
        ParsedProperty::Margin(s) => ComputedProperties { margin: s, ..cp },
        ParsedProperty::Color(c) => ComputedProperties { color: c, ..cp },
        ParsedProperty::BackgroundColor(c) => ComputedProperties { background_color: c, ..cp },
        ParsedProperty::BorderTopColor(c) => ComputedProperties {
            border: Sides { top: WidthAndColor { color: c, ..cp.border.top }, ..cp.border },
            ..cp
        },
        ParsedProperty::BorderRightColor(c) => ComputedProperties {
            border: Sides { right: WidthAndColor { color: c, ..cp.border.right }, ..cp.border },
            ..cp
        },
        ParsedProperty::BorderBottomColor(c) => ComputedProperties {
            border: Sides { bottom: WidthAndColor { color: c, ..cp.border.bottom }, ..cp.border },
            ..cp
        },
        ParsedProperty::BorderLeftColor(c) => ComputedProperties {
            border: Sides { left: WidthAndColor { color: c, ..cp.border.left }, ..cp.border },
            ..cp
        },
        ParsedProperty::BorderColor(s) => ComputedProperties {
            border: Sides {
                top: WidthAndColor { color: s.top, ..cp.border.top },
                right: WidthAndColor { color: s.right, ..cp.border.right },
                bottom: WidthAndColor { color: s.bottom, ..cp.border.bottom },
                left: WidthAndColor { color: s.left, ..cp.border.left },
            },
            ..cp
        },
        ParsedProperty::BorderTopWidth(v) => ComputedProperties {
            border: Sides { top: WidthAndColor { width: v, ..cp.border.top }, ..cp.border },
            ..cp
        },
        ParsedProperty::BorderRightWidth(v) => ComputedProperties {
            border: Sides { right: WidthAndColor { width: v, ..cp.border.right }, ..cp.border },
            ..cp
        },
        ParsedProperty::BorderBottomWidth(v) => ComputedProperties {
            border: Sides { bottom: WidthAndColor { width: v, ..cp.border.bottom }, ..cp.border },
            ..cp
        },
        ParsedProperty::BorderLeftWidth(v) => ComputedProperties {
            border: Sides { left: WidthAndColor { width: v, ..cp.border.left }, ..cp.border },
            ..cp
        },
        ParsedProperty::BorderWidth(s) => ComputedProperties {
            border: Sides {
                top: WidthAndColor { width: s.top, ..cp.border.top },
                right: WidthAndColor { width: s.right, ..cp.border.right },
                bottom: WidthAndColor { width: s.bottom, ..cp.border.bottom },
                left: WidthAndColor { width: s.left, ..cp.border.left },
            },
            ..cp
        },
        ParsedProperty::Border(wc) => ComputedProperties {
            border: Sides { top: wc, right: wc, bottom: wc, left: wc },
            ..cp
        },
        ParsedProperty::BorderTopLeftRadius(r) => ComputedProperties {
            border_radius: Corners { nw: r, ..cp.border_radius },
            ..cp
        },
        ParsedProperty::BorderTopRightRadius(r) => ComputedProperties {
            border_radius: Corners { ne: r, ..cp.border_radius },
            ..cp
        },
        ParsedProperty::BorderBottomLeftRadius(r) => ComputedProperties {
            border_radius: Corners { sw: r, ..cp.border_radius },
            ..cp
        },
        ParsedProperty::BorderBottomRightRadius(r) => ComputedProperties {
            border_radius: Corners { se: r, ..cp.border_radius },
            ..cp
        },
        ParsedProperty::BorderRadius(c) => ComputedProperties { border_radius: c, ..cp },
    }
}

impl ComputedProperties {
    /// Lands one parsed property on the record; exactly [`apply_prop`].
    pub fn apply_property(&mut self, p: &ParsedProperty)
        ensures
            *final(self) == apply_prop(*old(self), *p),
    {
        match p {
            ParsedProperty::Width(v) => self.width = Some(*v),
            ParsedProperty::Height(v) => self.height = Some(*v),
            ParsedProperty::MinWidth(v) => self.min_width = Some(*v),
            ParsedProperty::MinHeight(v) => self.min_height = Some(*v),
            ParsedProperty::MaxWidth(v) => self.max_width = Some(*v),
            ParsedProperty::MaxHeight(v) => self.max_height = Some(*v),
            ParsedProperty::FlexDirection(d) => self.direction = *d,
            ParsedProperty::PaddingTop(v) => self.padding.top = *v,
            ParsedProperty::PaddingRight(v) => self.padding.right = *v,
            ParsedProperty::PaddingBottom(v) => self.padding.bottom = *v,
            ParsedProperty::PaddingLeft(v) => self.padding.left = *v,
            ParsedProperty::Padding(s) => self.padding = *s,
            ParsedProperty::MarginTop(v) => self.margin.top = *v,
            ParsedProperty::MarginRight(v) => self.margin.right = *v,
            ParsedProperty::MarginBottom(v) => self.margin.bottom = *v,
            ParsedProperty::MarginLeft(v) => self.margin.left = *v,
            ParsedProperty::Margin(s) => self.margin = *s,
            ParsedProperty::Color(c) => self.color = *c,
            ParsedProperty::BackgroundColor(c) => self.background_color = *c,
            ParsedProperty::BorderTopColor(c) => self.border.top.color = *c,
            ParsedProperty::BorderRightColor(c) => self.border.right.color = *c,
            ParsedProperty::BorderBottomColor(c) => self.border.bottom.color = *c,
            ParsedProperty::BorderLeftColor(c) => self.border.left.color = *c,
            ParsedProperty::BorderColor(s) => {
                self.border.top.color = s.top;
                self.border.right.color = s.right;
                self.border.bottom.color = s.bottom;
                self.border.left.color = s.left;
            },
            ParsedProperty::BorderTopWidth(v) => self.border.top.width = *v,
            ParsedProperty::BorderRightWidth(v) => self.border.right.width = *v,
            ParsedProperty::BorderBottomWidth(v) => self.border.bottom.width = *v,
            ParsedProperty::BorderLeftWidth(v) => self.border.left.width = *v,
            ParsedProperty::BorderWidth(s) => {
                self.border.top.width = s.top;
                self.border.right.width = s.right;
                self.border.bottom.width = s.bottom;
                self.border.left.width = s.left;
            },
            ParsedProperty::Border(wc) => {
                self.border.top = *wc;
                self.border.right = *wc;
                self.border.bottom = *wc;
                self.border.left = *wc;
            },
            ParsedProperty::BorderTopLeftRadius(r) => self.border_radius.nw = *r,
            ParsedProperty::BorderTopRightRadius(r) => self.border_radius.ne = *r,
            ParsedProperty::BorderBottomLeftRadius(r) => self.border_radius.sw = *r,
            ParsedProperty::BorderBottomRightRadius(r) => self.border_radius.se = *r,
            ParsedProperty::BorderRadius(c) => self.border_radius = *c,
        }
    }

    /// Applies one declaration given as property name and value text.
    ///
    /// Returns an error naming the declaration, and changes nothing, when
    /// the property or its value shape is unsupported.
    pub fn apply(&mut self, name: &str, value: &str) -> (r: Result<(), String>)
        ensures
            r is Ok <==> interp_spec(name@, value@) is Some,
            interp_spec(name@, value@) matches Some(p) ==> *final(self) == apply_prop(
                *old(self),
                p,
            ),
            interp_spec(name@, value@) is None ==> *final(self) == *old(self),
            r matches Err(m) ==> m@ == "unsupported declaration: "@ + name@ + ": "@ + value@,
    {
        match interp(name, value) {
            Some(p) => {
                self.apply_property(&p);
                Ok(())
            },
            None => {
                let mut m: String = "unsupported declaration: ".to_owned();
                m.append(name);
                m.append(": ");
                m.append(value);
                Err(m)
            },
        }
    }
}

} // verus!
