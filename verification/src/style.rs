//! Terminal coloring through `ansi_term`, stated exactly: each painted string
//! is the SGR escape sequence of the style, the text, then the reset sequence.

use vstd::prelude::*;

verus! {

/// Text wrapped in the ANSI codes for a green foreground.
pub open spec fn green_of(s: Seq<char>) -> Seq<char> {
    seq!['\u{1b}', '[', '3', '2', 'm'] + s + seq!['\u{1b}', '[', '0', 'm']
}

/// Text wrapped in the ANSI codes for a red foreground.
pub open spec fn red_of(s: Seq<char>) -> Seq<char> {
    seq!['\u{1b}', '[', '3', '1', 'm'] + s + seq!['\u{1b}', '[', '0', 'm']
}

/// Text wrapped in the ANSI codes for dimmed intensity.
pub open spec fn dim_of(s: Seq<char>) -> Seq<char> {
    seq!['\u{1b}', '[', '2', 'm'] + s + seq!['\u{1b}', '[', '0', 'm']
}

/// Relies on `ansi_term::Colour::paint` with `Colour::Green` and the `Display`
/// impl of the returned `ANSIString`: a style holding only a green foreground
/// writes the prefix `ESC [ 3 2 m`, the text, and the reset `ESC [ 0 m`.
#[verifier::external_body]
pub(crate) fn paint_green(s: &str) -> (r: String)
    ensures
        r@ == green_of(s@),
{
    ansi_term::Colour::Green.paint(s).to_string()
}

/// Relies on `ansi_term::Colour::paint` with `Colour::Red` and the `Display`
/// impl of the returned `ANSIString`: a style holding only a red foreground
/// writes the prefix `ESC [ 3 1 m`, the text, and the reset `ESC [ 0 m`.
#[verifier::external_body]
pub(crate) fn paint_red(s: &str) -> (r: String)
    ensures
        r@ == red_of(s@),
{
    ansi_term::Colour::Red.paint(s).to_string()
}

/// Relies on `ansi_term::Style::paint` on `Style::default().dimmed()` and the
/// `Display` impl of the returned `ANSIString`: a style holding only the
/// dimmed attribute writes the prefix `ESC [ 2 m`, the text, and the reset
/// `ESC [ 0 m`.
#[verifier::external_body]
pub(crate) fn paint_dimmed(s: &str) -> (r: String)
    ensures
        r@ == dim_of(s@),
{
    ansi_term::Style::default().dimmed().paint(s).to_string()
}

} // verus!
