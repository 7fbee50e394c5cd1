//! The boundary to `console`: the two styles that a menu label uses.
//!
//! `console` decides by itself, from a switch that the process holds for its
//! standard output, whether a styled value is written with escape codes or
//! as it is. So each contract here allows both, and no more: they are taken
//! on trust.

use vstd::prelude::*;

verus! {

/// `text` as it is written under the style with the number `code`: between
/// the escape sequence that starts the style and the one that resets it where
/// `on` is true, and as it is where `on` is false.
pub open spec fn styled(code: Seq<char>, text: Seq<char>, on: bool) -> Seq<char> {
    if on {
        "\x1b["@ + code + "m"@ + text + "\x1b[0m"@
    } else {
        text
    }
}

/// `text` written dim, or plain.
pub open spec fn dimmed(text: Seq<char>, on: bool) -> Seq<char> {
    styled("2"@, text, on)
}

/// `text` written green, or plain.
pub open spec fn greened(text: Seq<char>, on: bool) -> Seq<char> {
    styled("32"@, text, on)
}

/// `console::style(text).dim()`, written to a string: the text between the
/// codes for dim and for reset where the process has colours switched on, the
/// text alone where it has not.
#[verifier::external_body]
pub(crate) fn dim(text: &str) -> (out: String)
    ensures
        out@ == dimmed(text@, true) || out@ == dimmed(text@, false),
{
    console::style(text).dim().to_string()
}

/// `console::style(text).green()`, written to a string: the text between the
/// codes for a green foreground and for reset where the process has colours
/// switched on, the text alone where it has not.
#[verifier::external_body]
pub(crate) fn green(text: &str) -> (out: String)
    ensures
        out@ == greened(text@, true) || out@ == greened(text@, false),
{
    console::style(text).green().to_string()
}

} // verus!
