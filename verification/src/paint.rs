//! Text in colour, through the `colored` crate: a text in one of the library's
//! colours is either the text itself (colour switched off) or the text between the
//! ANSI sequence that selects the colour and the one that resets it.
use vstd::prelude::*;
use colored::Colorize;
use crate::status::Tint;
use crate::text::text_of;

verus! {

/// The escape character that starts an ANSI sequence.
pub open spec fn esc() -> char {
    '\u{1b}'
}

/// The text holds no escape character, so no ANSI sequence is nested in it.
pub open spec fn no_escape(s: Seq<char>) -> bool {
    forall|i: int| 0 <= i < s.len() ==> s[i] != esc()
}

/// `s` between the sequence that selects the graphic rendition `code` and the one
/// that resets it.
pub open spec fn ansi_wrapped(s: Seq<char>, code: Seq<char>) -> Seq<char> {
    seq![esc(), '['] + code + seq!['m'] + s + seq![esc(), '[', '0', 'm']
}

/// What `colored` shows for a text with the rendition `code`: the text alone when
/// colouring is off, the wrapped text when it is on.
pub open spec fn shown_as(r: Seq<char>, s: Seq<char>, code: Seq<char>) -> bool {
    r == s || r == ansi_wrapped(s, code)
}

/// The rendition code of a colour, or `None` for plain text.
pub open spec fn tint_code(t: Tint) -> Option<Seq<char>> {
    match t {
        Tint::Plain => None,
        Tint::White => Some(seq!['3', '7']),
        Tint::Green => Some(seq!['3', '2']),
        Tint::Red => Some(seq!['3', '1']),
        Tint::RedBold => Some(seq!['1', ';', '3', '1']),
        Tint::Yellow => Some(seq!['3', '3']),
        Tint::Blue => Some(seq!['3', '4']),
        Tint::Cyan => Some(seq!['3', '6']),
    }
}

/// `s.white().to_string()` with `colored`: plain, or between `ESC[37m` and `ESC[0m`
/// (whether colour is on depends on the environment and the terminal).
#[verifier::external_body]
fn colored_white(s: &str) -> (r: String)
    ensures
        no_escape(s@) ==> shown_as(r@, s@, seq!['3', '7']),
{
    s.white().to_string()
}

/// `s.green().to_string()` with `colored`: plain, or between `ESC[32m` and `ESC[0m`.
#[verifier::external_body]
fn colored_green(s: &str) -> (r: String)
    ensures
        no_escape(s@) ==> shown_as(r@, s@, seq!['3', '2']),
{
    s.green().to_string()
}

/// `s.red().to_string()` with `colored`: plain, or between `ESC[31m` and `ESC[0m`.
#[verifier::external_body]
fn colored_red(s: &str) -> (r: String)
    ensures
        no_escape(s@) ==> shown_as(r@, s@, seq!['3', '1']),
{
    s.red().to_string()
}

/// `s.red().bold().to_string()` with `colored`: plain, or between `ESC[1;31m` and
/// `ESC[0m` (the style is written before the colour).
#[verifier::external_body]
fn colored_red_bold(s: &str) -> (r: String)
    ensures
        no_escape(s@) ==> shown_as(r@, s@, seq!['1', ';', '3', '1']),
{
    s.red().bold().to_string()
}

/// `s.yellow().to_string()` with `colored`: plain, or between `ESC[33m` and `ESC[0m`.
#[verifier::external_body]
fn colored_yellow(s: &str) -> (r: String)
    ensures
        no_escape(s@) ==> shown_as(r@, s@, seq!['3', '3']),
{
    s.yellow().to_string()
}

/// `s.blue().to_string()` with `colored`: plain, or between `ESC[34m` and `ESC[0m`.
#[verifier::external_body]
fn colored_blue(s: &str) -> (r: String)
    ensures
        no_escape(s@) ==> shown_as(r@, s@, seq!['3', '4']),
{
    s.blue().to_string()
}

/// `s.cyan().to_string()` with `colored`: plain, or between `ESC[36m` and `ESC[0m`.
#[verifier::external_body]
fn colored_cyan(s: &str) -> (r: String)
    ensures
        no_escape(s@) ==> shown_as(r@, s@, seq!['3', '6']),
{
    s.cyan().to_string()
}

/// `text` in the colour `tint`: plain text stays as it is; a coloured one is shown
/// as `colored` shows it.
pub fn paint(text: &str, tint: Tint) -> (r: String)
    ensures
        tint_code(tint) is None ==> r@ == text@,
        tint_code(tint) matches Some(code) ==> (no_escape(text@) ==> shown_as(r@, text@, code)),
{
    match tint {
        Tint::Plain => text_of(text),
        Tint::White => colored_white(text),
        Tint::Green => colored_green(text),
        Tint::Red => colored_red(text),
        Tint::RedBold => colored_red_bold(text),
        Tint::Yellow => colored_yellow(text),
        Tint::Blue => colored_blue(text),
        Tint::Cyan => colored_cyan(text),
    }
}

} // verus!
