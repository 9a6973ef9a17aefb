//! Terminal colors for labels, through the `colored` crate.

use colored::Colorize;
use vstd::prelude::*;

verus! {

/// The colors that labels are painted in.
#[derive(Clone, Copy, Debug, PartialEq, Eq, Structural)]
pub enum Paint {
    Blue,
    Green,
    Red,
    Yellow,
}

/// The escape sequence that starts text of a color.
pub open spec fn paint_prefix(p: Paint) -> Seq<char> {
    match p {
        Paint::Red => seq!['\u{1b}', '[', '3', '1', 'm'],
        Paint::Green => seq!['\u{1b}', '[', '3', '2', 'm'],
        Paint::Yellow => seq!['\u{1b}', '[', '3', '3', 'm'],
        Paint::Blue => seq!['\u{1b}', '[', '3', '4', 'm'],
    }
}

/// The escape sequence that resets the color.
pub open spec fn paint_reset() -> Seq<char> {
    seq!['\u{1b}', '[', '0', 'm']
}

/// Text without the escape character.
pub open spec fn no_escape(text: Seq<char>) -> bool {
    forall|i: int| 0 <= i < text.len() ==> text[i] != '\u{1b}'
}

/// `text` with `style` written after each reset sequence in it, reading from the left, so
/// that the color goes on after a reset inside the text.
pub open spec fn resets_escaped(text: Seq<char>, style: Seq<char>) -> Seq<char>
    decreases text.len(),
{
    if text.len() == 0 {
        text
    } else if text.len() >= paint_reset().len() && text.take(paint_reset().len() as int) == paint_reset() {
        paint_reset() + style + resets_escaped(text.skip(paint_reset().len() as int), style)
    } else {
        seq![text[0]] + resets_escaped(text.skip(1), style)
    }
}

/// Text without the escape character holds no reset sequence, so nothing is written into it.
pub proof fn lemma_no_escape_unchanged(text: Seq<char>, style: Seq<char>)
    requires
        no_escape(text),
    ensures
        resets_escaped(text, style) == text,
    decreases text.len(),
{
    if text.len() > 0 {
        if text.len() >= paint_reset().len() {
            assert(text.take(paint_reset().len() as int)[0] == text[0]);
        }
        assert forall|i: int| 0 <= i < text.skip(1).len() implies text.skip(1)[i] != '\u{1b}' by {
            assert(text.skip(1)[i] == text[i + 1]);
        }
        lemma_no_escape_unchanged(text.skip(1), style);
        assert(seq![text[0]] + text.skip(1) =~= text);
    }
}

/// The outcomes of painting `text`: the text itself when the terminal gets no colors, or
/// the color's escape sequence, the text with the color written again after each reset
/// sequence in it, and the reset sequence.
pub open spec fn is_painted(s: Seq<char>, text: Seq<char>, color: Paint) -> bool {
    s == text || s == paint_prefix(color) + resets_escaped(text, paint_prefix(color)) + paint_reset()
}

/// `text` in `color`, rendered by `colored` (the `blue`, `green`, `red`, `yellow` methods
/// of `Colorize` and `to_string`). Whether colors are written depends on the environment
/// (`CLICOLOR`, `NO_COLOR`, whether the output is a terminal), so the contract states only
/// that the result is the plain text, or the text between the color's escape sequence and
/// the reset sequence, with the color's escape sequence written after each reset sequence
/// inside the text.
#[verifier::external_body]
pub(crate) fn paint(text: &str, color: Paint) -> (s: String)
    ensures
        is_painted(s@, text@, color),
{
    match color {
        Paint::Blue => text.blue().to_string(),
        Paint::Green => text.green().to_string(),
        Paint::Red => text.red().to_string(),
        Paint::Yellow => text.yellow().to_string(),
    }
}

} // verus!
