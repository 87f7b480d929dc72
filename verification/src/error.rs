//! Errors of command parsing, validation, completion and execution.

use vstd::prelude::*;
use crate::color::{painted, push_painted, Style};
use crate::text::{decimal, push_decimal, push_str_chars, string_from_chars};

verus! {

#[verifier::external_type_specification]
#[verifier::external_body]
pub struct ExIoError(std::io::Error);

/// An error raised by user code, carried through the framework. Users
/// implement it for their own error types.
pub trait UserError: Send + Sync {
    /// The error's message.
    fn describe(&self) -> String;
}

/// The error type of the framework.
pub enum Error {
    /// An unknown subcommand, with similar known names.
    CommandNotFound { command: String, suggestions: Vec<String> },
    /// A command without a run function was given no subcommand.
    SubcommandRequired(String),
    /// The command has no run function.
    NoRunFunction(String),
    /// A flag value could not be parsed.
    FlagParsing { message: String, flag: Option<String>, suggestions: Vec<String> },
    /// The arguments could not be parsed.
    ArgumentParsing(String),
    /// The arguments broke a validation rule.
    ArgumentValidation { message: String, expected: String, received: usize },
    /// Custom validation failed.
    Validation(String),
    /// A completion function failed.
    Completion(String),
    /// An I/O error.
    Io(std::io::Error),
    /// An error from user code.
    Custom(Box<dyn UserError>),
}

/// Results carrying the framework's [`Error`].
pub type Result<T> = std::result::Result<T, Error>;

/// Text of an I/O error (its `Display` output).
#[verifier::external_body]
fn io_error_text(e: &std::io::Error) -> String {
    e.to_string()
}

pub open spec fn red_s(t: Seq<char>, c: bool) -> Seq<char> {
    painted("\x1b[31m"@, t, c)
}

pub open spec fn bold_s(t: Seq<char>, c: bool) -> Seq<char> {
    painted("\x1b[1m"@, t, c)
}

pub open spec fn yellow_s(t: Seq<char>, c: bool) -> Seq<char> {
    painted("\x1b[33m"@, t, c)
}

pub open spec fn green_s(t: Seq<char>, c: bool) -> Seq<char> {
    painted("\x1b[32m"@, t, c)
}

/// One indented, green line per suggestion.
pub open spec fn listed(s: Seq<String>, c: bool) -> Seq<char>
    decreases s.len(),
{
    if s.len() == 0 {
        Seq::empty()
    } else {
        listed(s.drop_last(), c) + "    "@ + green_s(s.last()@, c) + "\n"@
    }
}

/// The message an error renders to, for all variants but `Io` and `Custom`
/// (whose text comes from the wrapped error).
pub open spec fn render_spec(e: Error, c: bool) -> Seq<char> {
    match e {
        Error::CommandNotFound { command, suggestions } => {
            let head = red_s("Error"@, c) + ": unknown command "@ + bold_s(command@, c);
            if suggestions.len() == 0 {
                head
            } else if suggestions.len() == 1 {
                head + "\n\n"@ + yellow_s("Did you mean this"@, c) + "?\n"@ + "    "@ + green_s(
                    suggestions[0]@,
                    c,
                )
            } else {
                head + "\n\n"@ + yellow_s("Did you mean one of these"@, c) + "?\n"@ + listed(
                    suggestions@,
                    c,
                )
            }
        },
        Error::SubcommandRequired(cmd) => red_s("Error"@, c) + ": "@ + "'"@ + bold_s(cmd@, c)
            + "' requires a subcommand"@ + "\n\n"@ + yellow_s("Hint"@, c) + ": use '"@ + cmd@
            + " --help' for available subcommands"@,
        Error::NoRunFunction(cmd) => red_s("Error"@, c) + ": command '"@ + bold_s(cmd@, c)
            + "' is not runnable"@,
        Error::FlagParsing { message, flag, suggestions } => {
            let head = red_s("Error"@, c) + ": "@ + message@;
            let with_flag = match flag {
                Some(f) => head + " for flag '"@ + bold_s(f@, c) + "'"@,
                None => head,
            };
            if suggestions.len() == 0 {
                with_flag
            } else if suggestions.len() == 1 {
                with_flag + "\n\n"@ + yellow_s("Expected"@, c) + ": "@ + suggestions[0]@
            } else {
                with_flag + "\n\n"@ + yellow_s("Expected"@, c) + " one of:\n"@ + listed(
                    suggestions@,
                    c,
                )
            }
        },
        Error::ArgumentParsing(msg) => red_s("Error"@, c) + ": invalid argument - "@ + msg@,
        Error::ArgumentValidation { message, expected, received } => red_s("Error"@, c) + ": "@
            + message@ + "\n\n"@ + yellow_s("Expected"@, c) + ": "@ + expected@ + "\n"@
            + yellow_s("Received"@, c) + ": "@ + decimal(received as nat) + " argument"@ + (if received
            == 1 {
            ""@
        } else {
            "s"@
        }),
        Error::Validation(msg) => red_s("Validation error"@, c) + ": "@ + msg@,
        Error::Completion(msg) => red_s("Completion error"@, c) + ": "@ + msg@,
        Error::Io(_) => red_s("IO error"@, c) + ": "@,
        Error::Custom(_) => red_s("Error"@, c) + ": "@,
    }
}

fn push_listed(out: &mut Vec<char>, s: &Vec<String>, c: bool)
    ensures
        final(out)@ == old(out)@ + listed(s@, c),
{
    let ghost start = out@;
    let mut i: usize = 0;
    assert(s@.take(0) =~= Seq::<String>::empty());
    while i < s.len()
        invariant
            i <= s@.len(),
            out@ == start + listed(s@.take(i as int), c),
        decreases s.len() - i,
    {
        proof {
            assert(s@.take(i + 1).drop_last() =~= s@.take(i as int));
            assert(s@.take(i + 1).last() == s@[i as int]);
        }
        push_str_chars(out, "    ");
        push_painted(out, &Style::green(), s[i].as_str(), c);
        push_str_chars(out, "\n");
        proof {
            assert(out@ =~= start + listed(s@.take(i + 1), c));
        }
        i = i + 1;
    }
    assert(s@.take(i as int) =~= s@);
}

impl Error {
    /// A flag parsing error with just a message.
    pub fn flag_parsing(message: &str) -> (e: Error)
        ensures
            e matches Error::FlagParsing { message: m, flag: None, suggestions: s } && m@
                == message@ && s@.len() == 0,
    {
        Error::FlagParsing {
            message: crate::text::to_owned_string(message),
            flag: None,
            suggestions: Vec::new(),
        }
    }

    /// A flag parsing error naming the flag and the values it accepts.
    pub fn flag_parsing_with_suggestions(message: &str, flag: &str, suggestions: Vec<String>) -> (e:
        Error)
        ensures
            e matches Error::FlagParsing { message: m, flag: Some(f), suggestions: s } && m@
                == message@ && f@ == flag@ && s == suggestions,
    {
        Error::FlagParsing {
            message: crate::text::to_owned_string(message),
            flag: Some(crate::text::to_owned_string(flag)),
            suggestions,
        }
    }

    /// Whether the error wraps an underlying error (`Io` and `Custom`).
    pub fn has_source(&self) -> (r: bool)
        ensures
            r == (self is Io || self is Custom),
    {
        match self {
            Error::Io(_) | Error::Custom(_) => true,
            _ => false,
        }
    }

    /// The message this error displays, styled when `colorize`.
    pub fn render(&self, colorize: bool) -> (r: String)
        ensures
            !(self is Io || self is Custom) ==> r@ == render_spec(*self, colorize),
            (self is Io || self is Custom) ==> render_spec(*self, colorize).is_prefix_of(r@),
    {
        let c = colorize;
        let mut out: Vec<char> = Vec::new();
        match self {
            Error::CommandNotFound { command, suggestions } => {
                push_painted(&mut out, &Style::red(), "Error", c);
                push_str_chars(&mut out, ": unknown command ");
                push_painted(&mut out, &Style::bold(), command.as_str(), c);
                if suggestions.len() == 1 {
                    push_str_chars(&mut out, "\n\n");
                    push_painted(&mut out, &Style::yellow(), "Did you mean this", c);
                    push_str_chars(&mut out, "?\n");
                    push_str_chars(&mut out, "    ");
                    push_painted(&mut out, &Style::green(), suggestions[0].as_str(), c);
                } else if suggestions.len() > 1 {
                    push_str_chars(&mut out, "\n\n");
                    push_painted(&mut out, &Style::yellow(), "Did you mean one of these", c);
                    push_str_chars(&mut out, "?\n");
                    push_listed(&mut out, suggestions, c);
                }
            },
            Error::SubcommandRequired(cmd) => {
                push_painted(&mut out, &Style::red(), "Error", c);
                push_str_chars(&mut out, ": ");
                push_str_chars(&mut out, "'");
                push_painted(&mut out, &Style::bold(), cmd.as_str(), c);
                push_str_chars(&mut out, "' requires a subcommand");
                push_str_chars(&mut out, "\n\n");
                push_painted(&mut out, &Style::yellow(), "Hint", c);
                push_str_chars(&mut out, ": use '");
                push_str_chars(&mut out, cmd.as_str());
                push_str_chars(&mut out, " --help' for available subcommands");
            },
            Error::NoRunFunction(cmd) => {
                push_painted(&mut out, &Style::red(), "Error", c);
                push_str_chars(&mut out, ": command '");
                push_painted(&mut out, &Style::bold(), cmd.as_str(), c);
                push_str_chars(&mut out, "' is not runnable");
            },
            Error::FlagParsing { message, flag, suggestions } => {
                push_painted(&mut out, &Style::red(), "Error", c);
                push_str_chars(&mut out, ": ");
                push_str_chars(&mut out, message.as_str());
                if let Some(f) = flag {
                    push_str_chars(&mut out, " for flag '");
                    push_painted(&mut out, &Style::bold(), f.as_str(), c);
                    push_str_chars(&mut out, "'");
                }
                if suggestions.len() == 1 {
                    push_str_chars(&mut out, "\n\n");
                    push_painted(&mut out, &Style::yellow(), "Expected", c);
                    push_str_chars(&mut out, ": ");
                    push_str_chars(&mut out, suggestions[0].as_str());
                } else if suggestions.len() > 1 {
                    push_str_chars(&mut out, "\n\n");
                    push_painted(&mut out, &Style::yellow(), "Expected", c);
                    push_str_chars(&mut out, " one of:\n");
                    push_listed(&mut out, suggestions, c);
                }
            },
            Error::ArgumentParsing(msg) => {
                push_painted(&mut out, &Style::red(), "Error", c);
                push_str_chars(&mut out, ": invalid argument - ");
                push_str_chars(&mut out, msg.as_str());
            },
            Error::ArgumentValidation { message, expected, received } => {
                push_painted(&mut out, &Style::red(), "Error", c);
                push_str_chars(&mut out, ": ");
                push_str_chars(&mut out, message.as_str());
                push_str_chars(&mut out, "\n\n");
                push_painted(&mut out, &Style::yellow(), "Expected", c);
                push_str_chars(&mut out, ": ");
                push_str_chars(&mut out, expected.as_str());
                push_str_chars(&mut out, "\n");
                push_painted(&mut out, &Style::yellow(), "Received", c);
                push_str_chars(&mut out, ": ");
                push_decimal(&mut out, *received);
                push_str_chars(&mut out, " argument");
                if *received == 1 {
                    push_str_chars(&mut out, "");
                } else {
                    push_str_chars(&mut out, "s");
                }
            },
            Error::Validation(msg) => {
                push_painted(&mut out, &Style::red(), "Validation error", c);
                push_str_chars(&mut out, ": ");
                push_str_chars(&mut out, msg.as_str());
            },
            Error::Completion(msg) => {
                push_painted(&mut out, &Style::red(), "Completion error", c);
                push_str_chars(&mut out, ": ");
                push_str_chars(&mut out, msg.as_str());
            },
            Error::Io(err) => {
                push_painted(&mut out, &Style::red(), "IO error", c);
                push_str_chars(&mut out, ": ");
                let t = io_error_text(err);
                push_str_chars(&mut out, t.as_str());
            },
            Error::Custom(err) => {
                push_painted(&mut out, &Style::red(), "Error", c);
                push_str_chars(&mut out, ": ");
                let t = err.describe();
                push_str_chars(&mut out, t.as_str());
            },
        }
        string_from_chars(&out)
    }
}

impl From<std::io::Error> for Error {
    /// The I/O error, carried as [`Error::Io`].
    fn from(err: std::io::Error) -> (r: Error) {
        Error::Io(err)
    }
}

impl vstd::std_specs::convert::FromSpecImpl<std::io::Error> for Error {
    open spec fn obeys_from_spec() -> bool {
        true
    }

    open spec fn from_spec(err: std::io::Error) -> Error {
        Error::Io(err)
    }
}

} // verus!
