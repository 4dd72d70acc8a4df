//! Colored status text: plain ANSI SGR codes, or the bare text when color
//! is off (`NO_COLOR`, output not a terminal, or no ANSI support).
//!
//! Whether color is on is decided once at startup and held by the caller;
//! every function here takes it as `color`.
use vstd::prelude::*;
use crate::text::push_str;

verus! {

/// `text` wrapped in the SGR code `code` when `color` is on.
pub open spec fn painted(code: Seq<char>, text: Seq<char>, color: bool) -> Seq<char> {
    if color {
        "\x1b["@ + code + "m"@ + text + "\x1b[0m"@
    } else {
        text
    }
}

/// Wraps `text` in the SGR code `code` when `color` is on.
pub fn paint(code: &str, text: &str, color: bool) -> (r: String)
    ensures
        r@ == painted(code@, text@, color),
{
    let mut out = String::new();
    if color {
        push_str(&mut out, "\x1b[");
        push_str(&mut out, code);
        push_str(&mut out, "m");
        push_str(&mut out, text);
        push_str(&mut out, "\x1b[0m");
    } else {
        push_str(&mut out, text);
    }
    out
}

/// `text` in green.
pub fn green(text: &str, color: bool) -> (r: String)
    ensures
        r@ == painted("32"@, text@, color),
{
    paint("32", text, color)
}

/// `text` in red.
pub fn red(text: &str, color: bool) -> (r: String)
    ensures
        r@ == painted("31"@, text@, color),
{
    paint("31", text, color)
}

/// `text` in yellow.
pub fn yellow(text: &str, color: bool) -> (r: String)
    ensures
        r@ == painted("33"@, text@, color),
{
    paint("33", text, color)
}

/// `text` in cyan.
pub fn cyan(text: &str, color: bool) -> (r: String)
    ensures
        r@ == painted("36"@, text@, color),
{
    paint("36", text, color)
}

/// `text` in bold.
pub fn bold(text: &str, color: bool) -> (r: String)
    ensures
        r@ == painted("1"@, text@, color),
{
    paint("1", text, color)
}

/// `text` dimmed.
pub fn dim(text: &str, color: bool) -> (r: String)
    ensures
        r@ == painted("2"@, text@, color),
{
    paint("2", text, color)
}

/// Color is wanted when `NO_COLOR` is unset and stdout is a terminal; it is
/// then on if the console also accepts ANSI codes (asked only then).
pub fn wants_color(no_color_set: bool, stdout_is_terminal: bool) -> (b: bool)
    ensures
        b == (!no_color_set && stdout_is_terminal),
{
    !no_color_set && stdout_is_terminal
}

/// How many columns a spinner line with this label takes: the label, a
/// frame and some slack, to be blanked out when the spinner stops.
pub fn spinner_clear_width(label: &str) -> (n: usize)
    requires
        label@.len() + 4 <= usize::MAX,
    ensures
        n == label@.len() + 4,
{
    let v = crate::text::chars_of(label);
    v.len() + 4
}

} // verus!
