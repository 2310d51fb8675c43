//! Display helpers: the one-line renderings the command-line front end
//! prints. Whether style codes are emitted depends on global terminal
//! state, so nothing is claimed of the styled bytes.

use vstd::prelude::*;
use crate::color::Color;
use crate::tag::Tag;

verus! {

/// Relies on colored's `Colorize::color` and `bold`: styles the text for
/// the terminal; emission of codes depends on global terminal state.
#[verifier::external_body]
fn style_named_bold(s: &str, name: &str) -> String {
    colored::Colorize::bold(colored::Colorize::color(s, name)).to_string()
}

/// Relies on colored's `Colorize::color`: styles the text for the
/// terminal; emission of codes depends on global terminal state.
#[verifier::external_body]
fn style_named(s: &str, name: &str) -> String {
    colored::Colorize::color(s, name).to_string()
}

/// Relies on colored's `Colorize::truecolor` and `bold`: styles the text
/// with a 24-bit color; emission depends on global terminal state.
#[verifier::external_body]
fn style_rgb_bold(s: &str, r: u8, g: u8, b: u8) -> String {
    colored::Colorize::bold(colored::Colorize::truecolor(s, r, g, b)).to_string()
}

/// The color-name word the terminal library knows this color by; the
/// 24-bit case carries its own values instead.
pub fn color_name(c: &Color) -> (r: &'static str)
    ensures
        c is Black ==> r@ == "black"@,
        c is Red ==> r@ == "red"@,
        c is BrightWhite ==> r@ == "bright white"@,
{
    match c {
        Color::Black => "black",
        Color::Red => "red",
        Color::Green => "green",
        Color::Yellow => "yellow",
        Color::Blue => "blue",
        Color::Magenta => "magenta",
        Color::Cyan => "cyan",
        Color::White => "white",
        Color::BrightBlack => "bright black",
        Color::BrightRed => "bright red",
        Color::BrightGreen => "bright green",
        Color::BrightYellow => "bright yellow",
        Color::BrightBlue => "bright blue",
        Color::BrightMagenta => "bright magenta",
        Color::BrightCyan => "bright cyan",
        Color::BrightWhite => "bright white",
        Color::TrueColor { .. } => "white",
    }
}

/// One error line: a bold red label, then the message.
pub fn fmt_err(err: &str) -> (r: String)
{
    let mut m = style_named_bold("ERROR", "red");
    m.push(' ');
    m.append(style_named(err, "white").as_str());
    m
}

/// One success line: a bold green label, then the message.
pub fn fmt_ok(msg: &str) -> (r: String)
{
    let mut m = style_named_bold("OK", "green");
    m.push(' ');
    m.append(style_named(msg, "white").as_str());
    m
}

/// A path, bold blue.
pub fn fmt_path(path: &str) -> (r: String)
{
    style_named_bold(path, "blue")
}

/// Whether the name needs quoting when displayed: it contains an ASCII
/// whitespace character.
pub fn needs_quoting(name: &str) -> (r: bool)
    ensures
        r == exists|k: int|
            0 <= k < name@.len() && ((#[trigger] name@[k]) == ' ' || name@[k] == '\t'
                || name@[k] == '\n' || name@[k] == '\r' || name@[k] == '\x0c'),
{
    let n = name.unicode_len();
    let mut k: usize = 0;
    while k < n
        invariant
            n == name@.len(),
            k <= n,
            forall|q: int|
                0 <= q < k ==> !((#[trigger] name@[q]) == ' ' || name@[q] == '\t' || name@[q]
                    == '\n' || name@[q] == '\r' || name@[q] == '\x0c'),
        decreases n - k,
    {
        let c = name.get_char(k);
        if c == ' ' || c == '\t' || c == '\n' || c == '\r' || c == '\x0c' {
            return true;
        }
        k = k + 1;
    }
    false
}

/// A tag for display: its name in its color, bold, quoted when the name
/// contains whitespace.
pub fn fmt_tag(tag: &Tag) -> (r: String)
{
    let mut shown = String::new();
    if needs_quoting(tag.name.as_str()) {
        shown.push('"');
        shown.append(tag.name.as_str());
        shown.push('"');
    } else {
        shown.append(tag.name.as_str());
    }
    match &tag.color {
        Color::TrueColor { r, g, b } => style_rgb_bold(shown.as_str(), *r, *g, *b),
        c => style_named_bold(shown.as_str(), color_name(c)),
    }
}

} // verus!
