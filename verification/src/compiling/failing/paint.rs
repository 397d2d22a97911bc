//! Painting text for the terminal, and padding it.

use colored::{Color, ColoredString, Colorize};
use pad::PadStr;
use vstd::prelude::*;
use crate::text::plain_ascii;

verus! {

/// The colors that messages are painted in.
#[derive(Clone, Copy, Debug, PartialEq, Eq)]
pub enum PaintColor {
    Red,
    Yellow,
    Blue,
    Green,
}

/// A text with the colors and styles that it is to be shown in, of the
/// crate `colored`.
#[verifier::external_type_specification]
#[verifier::external_body]
pub struct ExColoredString(ColoredString);

/// `Colorize::color` of the crate `colored` gives a text a color to be
/// shown in. Nothing is claimed of the result, which is opaque.
#[verifier::external_body]
pub(crate) fn colored_text(text: &str, color: PaintColor) -> (out: ColoredString) {
    text.color(
        match color {
            PaintColor::Red => Color::Red,
            PaintColor::Yellow => Color::Yellow,
            PaintColor::Blue => Color::Blue,
            PaintColor::Green => Color::Green,
        },
    )
}

/// `Colorize::black` of the crate `colored` gives a text the color black
/// to be shown in. Nothing is claimed of the result, which is opaque.
#[verifier::external_body]
pub(crate) fn black_text(text: &str) -> (out: ColoredString) {
    text.black()
}

/// `Colorize::dimmed` of the crate `colored` on a string slice makes a
/// text that is shown dimmed. Nothing is claimed of the result, which is
/// opaque.
#[verifier::external_body]
pub(crate) fn dimmed_text(text: &str) -> (out: ColoredString) {
    text.dimmed()
}

/// `Colorize::on_color` of the crate `colored` gives a text a background
/// color. Nothing is claimed of the result, which is opaque.
#[verifier::external_body]
pub(crate) fn on_color(text: ColoredString, color: PaintColor) -> (out: ColoredString) {
    text.on_color(
        match color {
            PaintColor::Red => Color::Red,
            PaintColor::Yellow => Color::Yellow,
            PaintColor::Blue => Color::Blue,
            PaintColor::Green => Color::Green,
        },
    )
}

/// `Colorize::bold` of the crate `colored` makes a text bold. Nothing is
/// claimed of the result, which is opaque.
#[verifier::external_body]
pub(crate) fn bold(text: ColoredString) -> (out: ColoredString) {
    text.bold()
}

/// `Colorize::dimmed` of the crate `colored` makes a text dimmed. Nothing
/// is claimed of the result, which is opaque.
#[verifier::external_body]
pub(crate) fn dimmed(text: ColoredString) -> (out: ColoredString) {
    text.dimmed()
}

/// `ColoredString` of the crate `colored` shown as text, by its
/// `Display`. Whether the text comes with escape sequences or as it is
/// depends on the terminal and the environment, so nothing is claimed of
/// the result.
#[verifier::external_body]
pub(crate) fn shown(text: &ColoredString) -> (out: String) {
    text.to_string()
}

/// The text followed by as many spaces as it takes to make it `width`
/// characters long; the text itself if it is that long already.
pub open spec fn padded(text: Seq<char>, width: nat) -> Seq<char> {
    if text.len() < width {
        text + Seq::new((width - text.len()) as nat, |i: int| ' ')
    } else {
        text
    }
}

/// `PadStr::pad_to_width` of the crate `pad` appends spaces until the text
/// is `width` columns wide. A printable character of ASCII is one column
/// wide, so for text made of such characters columns are characters. Of
/// other text nothing is claimed.
#[verifier::external_body]
pub(crate) fn pad_label(text: &str, width: usize) -> (out: String)
    ensures
        plain_ascii(text@) ==> out@ == padded(text@, width as nat),
{
    text.pad_to_width(width)
}

} // verus!
