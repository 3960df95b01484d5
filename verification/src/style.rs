//! Text styling through the `colored` crate.
//!
//! Whether a painted string is wrapped in ANSI escape sequences or returned
//! unchanged depends on the environment (a tty, `NO_COLOR`, an override), so
//! nothing exact can be promised of a painted string.  What does hold of
//! every outcome is that styling only adds escape sequences: stripping them
//! recovers the text that went in.  Every trusted wrapper below promises
//! exactly that, through `styled_as`.

use vstd::prelude::*;

use colored::Colorize;
use colored::CustomColor;

verus! {

/// The position of the first `m` in `s` (the terminator of an ANSI colour
/// sequence), or `s.len()` if there is none.
pub open spec fn find_m(s: Seq<char>) -> nat
    decreases s.len(),
{
    if s.len() == 0 {
        0
    } else if s[0] == 'm' {
        0
    } else {
        find_m(s.skip(1)) + 1
    }
}

/// `s` with every ANSI escape sequence removed: from each escape character
/// through the next `m`, inclusive.
pub open spec fn strip_ansi(s: Seq<char>) -> Seq<char>
    decreases s.len(),
{
    if s.len() == 0 {
        s
    } else if s[0] == '\x1b' {
        if find_m(s) + 1 <= s.len() {
            strip_ansi(s.skip(find_m(s) as int + 1))
        } else {
            Seq::empty()
        }
    } else {
        seq![s[0]] + strip_ansi(s.skip(1))
    }
}

/// `out` is a styled form of `inner`: the two agree once ANSI escape
/// sequences are stripped.
pub open spec fn styled_as(out: Seq<char>, inner: Seq<char>) -> bool {
    strip_ansi(out) == strip_ansi(inner)
}

/// Relies on colored::Colorize::blue and the Display of ColoredString: the
/// text is wrapped in escape sequences, or returned as is when colouring is
/// off; inner reset sequences only have further style sequences inserted
/// after them, so stripping recovers the input's text.
#[verifier::external_body]
pub(crate) fn paint_blue(s: &str) -> (r: String)
    ensures
        styled_as(r@, s@),
{
    s.blue().to_string()
}

/// Relies on colored::Colorize::cyan, as `paint_blue` does on `blue`.
#[verifier::external_body]
pub(crate) fn paint_cyan(s: &str) -> (r: String)
    ensures
        styled_as(r@, s@),
{
    s.cyan().to_string()
}

/// Relies on colored::Colorize::bright_blue.
#[verifier::external_body]
pub(crate) fn paint_bright_blue(s: &str) -> (r: String)
    ensures
        styled_as(r@, s@),
{
    s.bright_blue().to_string()
}

/// Relies on colored::Colorize::bright_cyan.
#[verifier::external_body]
pub(crate) fn paint_bright_cyan(s: &str) -> (r: String)
    ensures
        styled_as(r@, s@),
{
    s.bright_cyan().to_string()
}

/// Relies on colored::Colorize::bright_magenta.
#[verifier::external_body]
pub(crate) fn paint_bright_magenta(s: &str) -> (r: String)
    ensures
        styled_as(r@, s@),
{
    s.bright_magenta().to_string()
}

/// Relies on colored::Colorize::bright_green.
#[verifier::external_body]
pub(crate) fn paint_bright_green(s: &str) -> (r: String)
    ensures
        styled_as(r@, s@),
{
    s.bright_green().to_string()
}

/// Relies on colored::Colorize::bright_yellow.
#[verifier::external_body]
pub(crate) fn paint_bright_yellow(s: &str) -> (r: String)
    ensures
        styled_as(r@, s@),
{
    s.bright_yellow().to_string()
}

/// Relies on colored::Colorize::bold and blue (the title style).
#[verifier::external_body]
pub(crate) fn paint_blue_bold(s: &str) -> (r: String)
    ensures
        styled_as(r@, s@),
{
    s.bold().blue().to_string()
}

/// Relies on colored::Colorize::bright_red and bold (the error style).
#[verifier::external_body]
pub(crate) fn paint_bright_red_bold(s: &str) -> (r: String)
    ensures
        styled_as(r@, s@),
{
    s.bright_red().bold().to_string()
}

/// Relies on colored::Colorize::bright_yellow and bold.
#[verifier::external_body]
pub(crate) fn paint_bright_yellow_bold(s: &str) -> (r: String)
    ensures
        styled_as(r@, s@),
{
    s.bright_yellow().bold().to_string()
}

/// Relies on colored::Colorize::bright_blue and bold (the rule style).
#[verifier::external_body]
pub(crate) fn paint_bright_blue_bold(s: &str) -> (r: String)
    ensures
        styled_as(r@, s@),
{
    s.bright_blue().bold().to_string()
}

/// Relies on colored::Colorize::custom_color: an exact RGB foreground.
#[verifier::external_body]
pub(crate) fn paint_custom(s: &str, cr: u8, cg: u8, cb: u8) -> (r: String)
    ensures
        styled_as(r@, s@),
{
    s.custom_color(CustomColor { r: cr, g: cg, b: cb }).to_string()
}

/// Relies on colored::Colorize::custom_color and bold.
#[verifier::external_body]
pub(crate) fn paint_custom_bold(s: &str, cr: u8, cg: u8, cb: u8) -> (r: String)
    ensures
        styled_as(r@, s@),
{
    s.custom_color(CustomColor { r: cr, g: cg, b: cb }).bold().to_string()
}

/// The table palette: column `i` is painted with the `i % 5`-th of five
/// bright colours.
pub(crate) fn paint_column(s: &str, index: usize) -> (r: String)
    ensures
        styled_as(r@, s@),
{
    let which = index % 5;
    if which == 0 {
        paint_bright_blue(s)
    } else if which == 1 {
        paint_bright_cyan(s)
    } else if which == 2 {
        paint_bright_magenta(s)
    } else if which == 3 {
        paint_bright_green(s)
    } else {
        paint_bright_yellow(s)
    }
}

} // verus!
