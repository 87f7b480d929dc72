//! ANSI colouring of terminal output. Whether to colour (stdout is a
//! terminal and `NO_COLOR` is unset) is decided by the caller and passed in.

use vstd::prelude::*;
use crate::text::{push_str_chars, str_chars, string_from_chars};

verus! {

/// The escape sequence that ends any style.
pub const RESET: &'static str = "\x1b[0m";

/// `text` wrapped in `prefix` and the reset sequence when `colorize`,
/// unchanged otherwise.
pub open spec fn painted(prefix: Seq<char>, text: Seq<char>, colorize: bool) -> Seq<char> {
    if colorize {
        prefix + text + "\x1b[0m"@
    } else {
        text
    }
}

/// A text style: the escape sequence that starts it and the one that ends it.
pub struct Style {
    prefix: &'static str,
    suffix: &'static str,
}

impl Style {
    pub closed spec fn spec_prefix(&self) -> Seq<char> {
        self.prefix@
    }

    pub closed spec fn well_formed(&self) -> bool {
        self.suffix@ == "\x1b[0m"@
    }

    pub fn red() -> (s: Style)
        ensures
            s.spec_prefix() == "\x1b[31m"@,
            s.well_formed(),
    {
        Style { prefix: "\x1b[31m", suffix: RESET }
    }

    pub fn green() -> (s: Style)
        ensures
            s.spec_prefix() == "\x1b[32m"@,
            s.well_formed(),
    {
        Style { prefix: "\x1b[32m", suffix: RESET }
    }

    pub fn yellow() -> (s: Style)
        ensures
            s.spec_prefix() == "\x1b[33m"@,
            s.well_formed(),
    {
        Style { prefix: "\x1b[33m", suffix: RESET }
    }

    pub fn blue() -> (s: Style)
        ensures
            s.spec_prefix() == "\x1b[34m"@,
            s.well_formed(),
    {
        Style { prefix: "\x1b[34m", suffix: RESET }
    }

    pub fn magenta() -> (s: Style)
        ensures
            s.spec_prefix() == "\x1b[35m"@,
            s.well_formed(),
    {
        Style { prefix: "\x1b[35m", suffix: RESET }
    }

    pub fn cyan() -> (s: Style)
        ensures
            s.spec_prefix() == "\x1b[36m"@,
            s.well_formed(),
    {
        Style { prefix: "\x1b[36m", suffix: RESET }
    }

    pub fn bold() -> (s: Style)
        ensures
            s.spec_prefix() == "\x1b[1m"@,
            s.well_formed(),
    {
        Style { prefix: "\x1b[1m", suffix: RESET }
    }

    pub fn dim() -> (s: Style)
        ensures
            s.spec_prefix() == "\x1b[2m"@,
            s.well_formed(),
    {
        Style { prefix: "\x1b[2m", suffix: RESET }
    }

    /// `text` in this style when `colorize`, plain otherwise.
    pub fn paint(&self, text: &str, colorize: bool) -> (r: String)
        requires
            self.well_formed(),
        ensures
            r@ == painted(self.spec_prefix(), text@, colorize),
    {
        if colorize {
            let mut out = str_chars(self.prefix);
            push_str_chars(&mut out, text);
            push_str_chars(&mut out, self.suffix);
            string_from_chars(&out)
        } else {
            crate::text::to_owned_string(text)
        }
    }
}

/// `text` in red when `colorize`.
pub fn red(text: &str, colorize: bool) -> (r: String)
    ensures
        r@ == painted("\x1b[31m"@, text@, colorize),
{
    Style::red().paint(text, colorize)
}

/// `text` in green when `colorize`.
pub fn green(text: &str, colorize: bool) -> (r: String)
    ensures
        r@ == painted("\x1b[32m"@, text@, colorize),
{
    Style::green().paint(text, colorize)
}

/// `text` in yellow when `colorize`.
pub fn yellow(text: &str, colorize: bool) -> (r: String)
    ensures
        r@ == painted("\x1b[33m"@, text@, colorize),
{
    Style::yellow().paint(text, colorize)
}

/// `text` in blue when `colorize`.
pub fn blue(text: &str, colorize: bool) -> (r: String)
    ensures
        r@ == painted("\x1b[34m"@, text@, colorize),
{
    Style::blue().paint(text, colorize)
}

/// `text` in cyan when `colorize`.
pub fn cyan(text: &str, colorize: bool) -> (r: String)
    ensures
        r@ == painted("\x1b[36m"@, text@, colorize),
{
    Style::cyan().paint(text, colorize)
}

/// `text` in bold when `colorize`.
pub fn bold(text: &str, colorize: bool) -> (r: String)
    ensures
        r@ == painted("\x1b[1m"@, text@, colorize),
{
    Style::bold().paint(text, colorize)
}

/// `text` dimmed when `colorize`.
pub fn dim(text: &str, colorize: bool) -> (r: String)
    ensures
        r@ == painted("\x1b[2m"@, text@, colorize),
{
    Style::dim().paint(text, colorize)
}

/// Appends `painted(prefix, text, colorize)` to `out`.
pub fn push_painted(out: &mut Vec<char>, style: &Style, text: &str, colorize: bool)
    requires
        style.well_formed(),
    ensures
        final(out)@ == old(out)@ + painted(style.spec_prefix(), text@, colorize),
{
    let p = style.paint(text, colorize);
    push_str_chars(out, p.as_str());
}

} // verus!
