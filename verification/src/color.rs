//! Conversions between colour codes kept in settings (`#rrggbb`) and the UI toolkit's
//! colour and brush values.

use vstd::prelude::*;
use vstd::string::*;
use vstd::utf8::encode_utf8;
use crate::text::{
    color_hex_text, is_lower_hex_code, lemma_format_parsed, lemma_parse_formatted, parse_hex_rgb,
    parsed_rgb, rgb_to_hex,
};

verus! {

#[verifier::external_type_specification]
#[verifier::external_body]
pub struct ExColor(slint::Color);

#[verifier::external_type_specification]
#[verifier::external_body]
pub struct ExBrush(slint::Brush);

/// The colour that `slint::Color::from_rgb_u8` builds from the given channels.
pub uninterp spec fn slint_color_from_rgb_u8(red: u8, green: u8, blue: u8) -> slint::Color;

/// The red channel that `slint::Color::red` reports.
pub uninterp spec fn slint_color_red(color: slint::Color) -> u8;

/// The green channel that `slint::Color::green` reports.
pub uninterp spec fn slint_color_green(color: slint::Color) -> u8;

/// The blue channel that `slint::Color::blue` reports.
pub uninterp spec fn slint_color_blue(color: slint::Color) -> u8;

/// The colour that `slint::Brush::color` reports for a brush.
pub uninterp spec fn slint_brush_color(brush: slint::Brush) -> slint::Color;

/// Calls `slint::Color::from_rgb_u8`; claims only that the result is the named colour
/// of these three channels.
#[verifier::external_body]
fn color_from_rgb_u8(red: u8, green: u8, blue: u8) -> (color: slint::Color)
    ensures
        color == slint_color_from_rgb_u8(red, green, blue),
{
    slint::Color::from_rgb_u8(red, green, blue)
}

/// Calls `slint::Color::red`; claims that it reports the named red channel, and that
/// for a colour built by `from_rgb_u8` it gives back the red channel it was built from
/// (the colour stores its channels as given, or as `v / 255.0`, which reads back as `v`).
#[verifier::external_body]
fn color_red(color: slint::Color) -> (v: u8)
    ensures
        v == slint_color_red(color),
        forall|r: u8, g: u8, b: u8|
            color == #[trigger] slint_color_from_rgb_u8(r, g, b) ==> v == r,
{
    color.red()
}

/// Calls `slint::Color::green`; the same claims as for the red channel.
#[verifier::external_body]
fn color_green(color: slint::Color) -> (v: u8)
    ensures
        v == slint_color_green(color),
        forall|r: u8, g: u8, b: u8|
            color == #[trigger] slint_color_from_rgb_u8(r, g, b) ==> v == g,
{
    color.green()
}

/// Calls `slint::Color::blue`; the same claims as for the red channel.
#[verifier::external_body]
fn color_blue(color: slint::Color) -> (v: u8)
    ensures
        v == slint_color_blue(color),
        forall|r: u8, g: u8, b: u8|
            color == #[trigger] slint_color_from_rgb_u8(r, g, b) ==> v == b,
{
    color.blue()
}

/// Calls `slint::Brush::color`; claims only that the result is the brush's named colour
/// (for a gradient the toolkit reports its first stop, which is not stated here).
#[verifier::external_body]
fn brush_color(brush: &slint::Brush) -> (color: slint::Color)
    ensures
        color == slint_brush_color(*brush),
{
    brush.color()
}

/// Calls `slint::Brush::SolidColor`; claims that the brush reports the colour it was
/// made of (`Brush::color` returns a solid brush's colour as stored).
#[verifier::external_body]
fn solid_brush(color: slint::Color) -> (brush: slint::Brush)
    ensures
        slint_brush_color(brush) == color,
{
    slint::Brush::SolidColor(color)
}

/// A solid brush of the given colour.
pub fn color_brush(color: slint::Color) -> (brush: slint::Brush)
    ensures
        slint_brush_color(brush) == color,
{
    solid_brush(color)
}

/// The red, green and blue channels of a colour; a colour built from channels gives
/// those channels back.
pub fn color_channels(color: slint::Color) -> (rgb: (u8, u8, u8))
    ensures
        rgb == (slint_color_red(color), slint_color_green(color), slint_color_blue(color)),
        forall|r: u8, g: u8, b: u8|
            color == #[trigger] slint_color_from_rgb_u8(r, g, b) ==> rgb == (r, g, b),
{
    (color_red(color), color_green(color), color_blue(color))
}

/// The toolkit colour for a `#RRGGBB` code (digits in either case); any other text
/// gives grey (100, 100, 100). For a lower-case code, writing out the channels the
/// colour is built from gives the code back.
pub fn hex_to_color(hex: &str) -> (color: slint::Color)
    ensures
        color == slint_color_from_rgb_u8(
            parsed_rgb(hex.spec_bytes()).0,
            parsed_rgb(hex.spec_bytes()).1,
            parsed_rgb(hex.spec_bytes()).2,
        ),
        is_lower_hex_code(hex.spec_bytes()) ==> encode_utf8(
            color_hex_text(
                parsed_rgb(hex.spec_bytes()).0,
                parsed_rgb(hex.spec_bytes()).1,
                parsed_rgb(hex.spec_bytes()).2,
            ),
        ) == hex.spec_bytes(),
{
    proof {
        if is_lower_hex_code(hex.spec_bytes()) {
            lemma_format_parsed(hex.spec_bytes());
        }
    }
    let (r, g, b) = parse_hex_rgb(hex);
    color_from_rgb_u8(r, g, b)
}

/// The `#rrggbb` code (lower-case) of a brush's colour, for storing in settings.
/// Reading the code back gives a colour with the brush colour's channels.
pub fn brush_to_hex(brush: slint::Brush) -> (s: String)
    ensures
        s@ == color_hex_text(
            slint_color_red(slint_brush_color(brush)),
            slint_color_green(slint_brush_color(brush)),
            slint_color_blue(slint_brush_color(brush)),
        ),
        forall|r: u8, g: u8, b: u8|
            slint_brush_color(brush) == #[trigger] slint_color_from_rgb_u8(r, g, b) ==> s@
                == color_hex_text(r, g, b),
        parsed_rgb(encode_utf8(s@)) == (
            slint_color_red(slint_brush_color(brush)),
            slint_color_green(slint_brush_color(brush)),
            slint_color_blue(slint_brush_color(brush)),
        ),
{
    let color = brush_color(&brush);
    let r = color_red(color);
    let g = color_green(color);
    let b = color_blue(color);
    proof {
        lemma_parse_formatted(r, g, b);
    }
    rgb_to_hex(r, g, b)
}

} // verus!
