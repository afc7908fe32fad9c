//! Terminal styling of text, by `owo-colors`: each style wraps the text in an ANSI
//! escape sequence that turns it on and one that turns it off.
use vstd::prelude::*;
use owo_colors::OwoColorize;

verus! {

/// Text in green.
pub open spec fn green(s: Seq<char>) -> Seq<char> {
    "\x1b[32m"@ + s + "\x1b[39m"@
}

/// Text in red.
pub open spec fn red(s: Seq<char>) -> Seq<char> {
    "\x1b[31m"@ + s + "\x1b[39m"@
}

/// Text in yellow.
pub open spec fn yellow(s: Seq<char>) -> Seq<char> {
    "\x1b[33m"@ + s + "\x1b[39m"@
}

/// Text in cyan.
pub open spec fn cyan(s: Seq<char>) -> Seq<char> {
    "\x1b[36m"@ + s + "\x1b[39m"@
}

/// Text in bold.
pub open spec fn bold(s: Seq<char>) -> Seq<char> {
    "\x1b[1m"@ + s + "\x1b[0m"@
}

/// Text dimmed.
pub open spec fn dimmed(s: Seq<char>) -> Seq<char> {
    "\x1b[2m"@ + s + "\x1b[0m"@
}

/// Formats `OwoColorize::green`. Claimed: the text between `ESC[32m` and `ESC[39m`
/// (owo-colors writes the color's foreground code, the text, then the default-color code).
#[verifier::external_body]
pub fn paint_green(s: &str) -> (r: String)
    ensures
        r@ == green(s@),
{
    format!("{}", s.green())
}

/// Formats `OwoColorize::red`. Claimed: the text between `ESC[31m` and `ESC[39m`.
#[verifier::external_body]
pub fn paint_red(s: &str) -> (r: String)
    ensures
        r@ == red(s@),
{
    format!("{}", s.red())
}

/// Formats `OwoColorize::yellow`. Claimed: the text between `ESC[33m` and `ESC[39m`.
#[verifier::external_body]
pub fn paint_yellow(s: &str) -> (r: String)
    ensures
        r@ == yellow(s@),
{
    format!("{}", s.yellow())
}

/// Formats `OwoColorize::cyan`. Claimed: the text between `ESC[36m` and `ESC[39m`.
#[verifier::external_body]
pub fn paint_cyan(s: &str) -> (r: String)
    ensures
        r@ == cyan(s@),
{
    format!("{}", s.cyan())
}

/// Formats `OwoColorize::bold`. Claimed: the text between `ESC[1m` and `ESC[0m`
/// (owo-colors ends every style with the full reset).
#[verifier::external_body]
pub fn paint_bold(s: &str) -> (r: String)
    ensures
        r@ == bold(s@),
{
    format!("{}", s.bold())
}

/// Formats `OwoColorize::dimmed`. Claimed: the text between `ESC[2m` and `ESC[0m`.
#[verifier::external_body]
pub fn paint_dimmed(s: &str) -> (r: String)
    ensures
        r@ == dimmed(s@),
{
    format!("{}", s.dimmed())
}

} // verus!
