//! How completion results are written out for each shell.

use vstd::prelude::*;
use crate::active_help::{display_decision, ActiveHelp};
use crate::color::{painted, push_painted, Style};
use crate::completion::{copy_strings, CompletionResult};
use crate::context::Context;
use crate::text::{
    byte_len, char_width, char_width_exec, lemma_byte_len_concat, lemma_byte_len_push, push_repeat, push_slice,
    prefix_chars, push_str_chars, spaces, str_byte_len, str_chars, string_from_chars, string_views,
};

verus! {

/// The form completions are written in.
#[derive(Clone, Copy, Debug)]
pub enum CompletionFormat {
    /// Values only.
    Simple,
    /// Values with aligned descriptions, for people to read.
    Display,
    /// `value:description` lines for zsh.
    Zsh,
    /// `value<TAB>description` lines for fish.
    Fish,
    /// Values only, for bash.
    Bash,
}

// ---------------------------------------------------------------------------
// Line layout
// ---------------------------------------------------------------------------

/// The largest byte length among `vs` (0 when there are none).
pub open spec fn max_byte_len(vs: Seq<Seq<char>>) -> nat
    decreases vs.len(),
{
    if vs.len() == 0 {
        0
    } else {
        let m = max_byte_len(vs.drop_last());
        if byte_len(vs.last()) > m {
            byte_len(vs.last())
        } else {
            m
        }
    }
}

/// `s` padded with spaces to `w` characters (as `format!("{s:<w$}")`).
pub open spec fn pad_to(s: Seq<char>, w: nat) -> Seq<char> {
    if s.len() < w {
        s + spaces((w - s.len()) as nat)
    } else {
        s
    }
}

/// `s` with every `:` written as `\:`.
pub open spec fn escape_colons(s: Seq<char>) -> Seq<char>
    decreases s.len(),
{
    if s.len() == 0 {
        Seq::empty()
    } else {
        escape_colons(s.drop_last()) + if s.last() == ':' {
            seq!['\\', ':']
        } else {
            seq![s.last()]
        }
    }
}

/// The longest prefix of `s` of at most `n` bytes.
pub open spec fn take_bytes(s: Seq<char>, n: nat) -> Seq<char>
    decreases s.len(),
{
    if s.len() == 0 || char_width(s[0]) > n {
        Seq::empty()
    } else {
        seq![s[0]] + take_bytes(s.drop_first(), (n - char_width(s[0])) as nat)
    }
}

/// `line` cut to 77 bytes followed by `...` when it is longer than 80
/// bytes, unchanged otherwise.
pub open spec fn truncate80(line: Seq<char>) -> Seq<char> {
    if byte_len(line) > 80 {
        take_bytes(line, 77) + "..."@
    } else {
        line
    }
}

/// Padding width shared by the zsh and fish layouts.
pub open spec fn shared_padding(values: Seq<Seq<char>>) -> nat {
    (if max_byte_len(values) <= 35 {
        max_byte_len(values)
    } else {
        35
    }) + 4
}

/// A zsh line before truncation.
pub open spec fn zsh_full(value: Seq<char>, desc: Seq<char>, padding: nat) -> Seq<char> {
    let esc = escape_colons(value);
    if desc.len() == 0 {
        esc + ":"@ + esc + "    - "@
    } else if byte_len(value) <= 35 {
        esc + ":"@ + pad_to(esc, padding) + "- "@ + desc
    } else {
        esc + ":"@ + esc + " - "@ + desc
    }
}

/// A zsh line: `value:description`, colons in the value escaped, cut to 80
/// bytes.
pub open spec fn zsh_line(value: Seq<char>, desc: Seq<char>, padding: nat) -> Seq<char> {
    truncate80(zsh_full(value, desc, padding))
}

/// A fish line: the value, and when there is a description a tab and the
/// description, cut to 80 bytes.
pub open spec fn fish_line(value: Seq<char>, desc: Seq<char>) -> Seq<char> {
    if desc.len() == 0 {
        value
    } else {
        value + "\t"@ + truncate80(desc)
    }
}

/// A display line: the value, padded to `width` and followed by the
/// (dimmed) description when there is one.
pub open spec fn display_line(value: Seq<char>, desc: Seq<char>, width: nat, colorize: bool) -> Seq<
    char,
> {
    if desc.len() == 0 {
        value
    } else {
        pad_to(value, width) + painted("\x1b[2m"@, desc, colorize)
    }
}

pub open spec fn zip_len(values: Seq<Seq<char>>, descs: Seq<Seq<char>>) -> nat {
    if values.len() <= descs.len() {
        values.len()
    } else {
        descs.len()
    }
}

/// The lines for the values themselves, before hints.
pub open spec fn value_lines(
    f: CompletionFormat,
    values: Seq<Seq<char>>,
    descs: Seq<Seq<char>>,
    colorize: bool,
) -> Seq<Seq<char>> {
    let n = zip_len(values, descs);
    match f {
        CompletionFormat::Simple | CompletionFormat::Bash => values,
        CompletionFormat::Display => if forall|i: int| 0 <= i < descs.len() ==> (#[trigger] descs[i]).len() == 0 {
            values
        } else {
            Seq::new(
                n,
                |i: int| display_line(values[i], descs[i], max_byte_len(values) + 4, colorize),
            )
        },
        CompletionFormat::Zsh => Seq::new(
            n,
            |i: int| zsh_line(values[i], descs[i], shared_padding(values)),
        ),
        CompletionFormat::Fish => Seq::new(
            n,
            |i: int| fish_line(values[i], descs[i]),
        ),
    }
}

/// The marker a hint line starts with in each format.
pub open spec fn help_prefix(f: CompletionFormat) -> Seq<char> {
    match f {
        CompletionFormat::Bash => "_activehelp_ "@,
        CompletionFormat::Zsh => "_activehelp_::"@,
        CompletionFormat::Fish => "_activehelp_\t"@,
        CompletionFormat::Simple | CompletionFormat::Display => "[HELP] "@,
    }
}

/// The lines for the hints whose decision in `shown` is true, in order.
pub open spec fn help_lines(helps: Seq<ActiveHelp>, shown: Seq<bool>, f: CompletionFormat) -> Seq<
    Seq<char>,
>
    decreases helps.len(),
{
    if helps.len() == 0 {
        Seq::empty()
    } else {
        let rest = help_lines(helps.drop_last(), shown.take(helps.len() - 1), f);
        if shown[helps.len() - 1] {
            rest.push(help_prefix(f) + helps.last().message@)
        } else {
            rest
        }
    }
}

/// The inputs on which formatting is defined: the display column width
/// must fit in `usize`.
pub open spec fn format_defined(f: CompletionFormat, values: Seq<Seq<char>>, descs: Seq<Seq<char>>) -> bool {
    f is Display ==> max_byte_len(values) + 4 <= usize::MAX
}

// ---------------------------------------------------------------------------
// Executable layout helpers
// ---------------------------------------------------------------------------

fn escape_colons_exec(s: &[char]) -> (r: Vec<char>)
    ensures
        r@ == escape_colons(s@),
{
    let mut r: Vec<char> = Vec::new();
    let mut i: usize = 0;
    assert(s@.take(0) =~= Seq::<char>::empty());
    while i < s.len()
        invariant
            i <= s@.len(),
            r@ == escape_colons(s@.take(i as int)),
        decreases s.len() - i,
    {
        proof {
            assert(s@.take(i + 1).drop_last() =~= s@.take(i as int));
            assert(s@.take(i + 1).last() == s@[i as int]);
        }
        if s[i] == ':' {
            r.push('\\');
            r.push(':');
        } else {
            r.push(s[i]);
        }
        assert(r@ =~= escape_colons(s@.take(i + 1)));
        i = i + 1;
    }
    assert(s@.take(i as int) =~= s@);
    r
}

/// Appends `s` padded to `w` characters.
pub fn push_padded(out: &mut Vec<char>, s: &[char], w: usize)
    ensures
        final(out)@ == old(out)@ + pad_to(s@, w as nat),
{
    push_slice(out, s);
    if s.len() < w {
        push_repeat(out, ' ', w - s.len());
        assert(old(out)@ + pad_to(s@, w as nat) =~= old(out)@ + s@ + spaces((w - s.len()) as nat));
    }
}

proof fn lemma_take_bytes_step(s: Seq<char>, i: int, n: nat)
    requires
        0 <= i < s.len(),
        byte_len(s.take(i)) + char_width(s[i]) <= n,
    ensures
        s.take(i) + take_bytes(s.skip(i), (n - byte_len(s.take(i))) as nat) == s.take(i + 1)
            + take_bytes(s.skip(i + 1), (n - byte_len(s.take(i + 1))) as nat),
{
    lemma_byte_len_push(s.take(i), s[i]);
    assert(s.take(i).push(s[i]) =~= s.take(i + 1));
    assert(s.skip(i).drop_first() =~= s.skip(i + 1));
    assert(s.skip(i)[0] == s[i]);
    assert(s.take(i) + (seq![s[i]] + take_bytes(s.skip(i + 1), (n - byte_len(s.take(i + 1))) as nat))
        =~= s.take(i + 1) + take_bytes(s.skip(i + 1), (n - byte_len(s.take(i + 1))) as nat));
}

/// The longest prefix of `s` of at most `n` bytes.
fn take_bytes_exec(s: &[char], n: usize) -> (r: Vec<char>)
    ensures
        r@ == take_bytes(s@, n as nat),
{
    let mut i: usize = 0;
    let mut used: usize = 0;
    assert(s@.skip(0) =~= s@);
    assert(s@.take(0) =~= Seq::<char>::empty());
    while i < s.len() && char_width_exec(s[i]) <= n - used
        invariant
            i <= s@.len(),
            used == byte_len(s@.take(i as int)),
            used <= n,
            take_bytes(s@, n as nat) == s@.take(i as int) + take_bytes(
                s@.skip(i as int),
                (n - used) as nat,
            ),
        decreases s.len() - i,
    {
        proof {
            lemma_take_bytes_step(s@, i as int, n as nat);
            lemma_byte_len_push(s@.take(i as int), s@[i as int]);
            assert(s@.take(i as int).push(s@[i as int]) =~= s@.take(i + 1));
        }
        used = used + char_width_exec(s[i]);
        i = i + 1;
    }
    proof {
        if i < s@.len() {
            assert(s@.skip(i as int)[0] == s@[i as int]);
        }
        assert(take_bytes(s@.skip(i as int), (n - used) as nat) =~= Seq::<char>::empty());
        assert(s@.take(i as int) + Seq::<char>::empty() =~= s@.take(i as int));
    }
    prefix_chars(s, i)
}

/// Whether `s` is longer than `limit` bytes.
fn exceeds_bytes(s: &[char], limit: usize) -> (r: bool)
    ensures
        r == (byte_len(s@) > limit),
{
    let mut n: usize = 0;
    let mut i: usize = 0;
    while i < s.len()
        invariant
            i <= s@.len(),
            n == byte_len(s@.take(i as int)),
            n <= limit,
        decreases s.len() - i,
    {
        proof {
            lemma_byte_len_push(s@.take(i as int), s@[i as int]);
            assert(s@.take(i as int).push(s@[i as int]) =~= s@.take(i + 1));
        }
        let w = char_width_exec(s[i]);
        if w > limit - n {
            proof {
                lemma_byte_len_concat(s@.take(i + 1), s@.skip(i + 1));
                assert(s@.take(i + 1) + s@.skip(i + 1) =~= s@);
            }
            return true;
        }
        n = n + w;
        i = i + 1;
    }
    assert(s@.take(i as int) =~= s@);
    false
}

/// `line` cut to 77 bytes and ended with `...` when it is longer than 80
/// bytes.
fn truncate80_exec(line: Vec<char>) -> (r: Vec<char>)
    ensures
        r@ == truncate80(line@),
{
    if exceeds_bytes(&line, 80) {
        let mut r = take_bytes_exec(&line, 77);
        push_str_chars(&mut r, "...");
        r
    } else {
        line
    }
}

/// The largest byte length among `values`.
fn max_byte_len_exec(values: &Vec<String>) -> (m: usize)
    ensures
        m == max_byte_len(string_views(values@)),
{
    let ghost vs = string_views(values@);
    let mut m: usize = 0;
    let mut i: usize = 0;
    assert(vs.take(0) =~= Seq::<Seq<char>>::empty());
    while i < values.len()
        invariant
            i <= values@.len(),
            vs == string_views(values@),
            m == max_byte_len(vs.take(i as int)),
        decreases values.len() - i,
    {
        let l = str_byte_len(values[i].as_str());
        assert(vs.take(i + 1).drop_last() =~= vs.take(i as int));
        assert(vs.take(i + 1).last() == values@[i as int]@);
        if l > m {
            m = l;
        }
        i = i + 1;
    }
    assert(vs.take(i as int) =~= vs);
    m
}

/// The zsh line for one value.
fn zsh_line_exec(value: &str, desc: &str, padding: usize) -> (r: Vec<char>)
    requires
        padding <= 39,
    ensures
        r@ == zsh_line(value@, desc@, padding as nat),
{
    let v = str_chars(value);
    let esc = escape_colons_exec(&v);
    let mut full: Vec<char> = Vec::new();
    push_slice(&mut full, &esc);
    push_str_chars(&mut full, ":");
    if desc.is_empty() {
        push_slice(&mut full, &esc);
        push_str_chars(&mut full, "    - ");
    } else if str_byte_len(value) <= 35 {
        push_padded(&mut full, &esc, padding);
        push_str_chars(&mut full, "- ");
        push_str_chars(&mut full, desc);
    } else {
        push_slice(&mut full, &esc);
        push_str_chars(&mut full, " - ");
        push_str_chars(&mut full, desc);
    }
    assert(full@ == zsh_full(value@, desc@, padding as nat));
    truncate80_exec(full)
}

/// The fish line for one value.
fn fish_line_exec(value: &str, desc: &str) -> (r: Vec<char>)
    ensures
        r@ == fish_line(value@, desc@),
{
    let v = str_chars(value);
    if desc.is_empty() {
        return v;
    }
    let d = truncate80_exec(str_chars(desc));
    let mut r = v;
    push_str_chars(&mut r, "\t");
    push_slice(&mut r, &d);
    r
}

/// The display line for one value.
fn display_line_exec(value: &str, desc: &str, width: usize, colorize: bool) -> (r: Vec<char>)
    ensures
        r@ == display_line(value@, desc@, width as nat, colorize),
{
    let v = str_chars(value);
    if desc.is_empty() {
        return v;
    }
    let mut r: Vec<char> = Vec::new();
    push_padded(&mut r, &v, width);
    push_painted(&mut r, &Style::dim(), desc, colorize);
    r
}

/// Whether some description is non-empty.
fn any_description(descs: &Vec<String>) -> (r: bool)
    ensures
        r == !(forall|i: int| 0 <= i < descs@.len() ==> (#[trigger] descs@[i])@.len() == 0),
{
    let mut i: usize = 0;
    while i < descs.len()
        invariant
            i <= descs@.len(),
            forall|j: int| 0 <= j < i ==> (#[trigger] descs@[j])@.len() == 0,
        decreases descs.len() - i,
    {
        if !descs[i].as_str().is_empty() {
            return true;
        }
        i = i + 1;
    }
    false
}

impl CompletionFormat {
    /// The format for a shell name: `zsh`, `fish`, `bash` and `display`
    /// name their formats; anything else, or no name, is `Simple`.
    pub fn from_shell_type(shell_type: Option<&str>) -> (f: CompletionFormat)
        ensures
            f == shell_format(
                match shell_type {
                    Some(s) => Some(s@),
                    None => None,
                },
            ),
    {
        match shell_type {
            None => CompletionFormat::Simple,
            Some(s) => {
                if crate::text::str_eq(s, "zsh") {
                    CompletionFormat::Zsh
                } else if crate::text::str_eq(s, "fish") {
                    CompletionFormat::Fish
                } else if crate::text::str_eq(s, "bash") {
                    CompletionFormat::Bash
                } else if crate::text::str_eq(s, "display") {
                    CompletionFormat::Display
                } else {
                    CompletionFormat::Simple
                }
            },
        }
    }

    /// The lines for the values of `result`, without hints.
    fn format_values(self, result: &CompletionResult, colorize: bool) -> (out: Vec<String>)
        requires
            self is Display ==> max_byte_len(string_views(result.values@)) + 4 <= usize::MAX,
        ensures
            string_views(out@) == value_lines(
                self,
                string_views(result.values@),
                string_views(result.descriptions@),
                colorize,
            ),
    {
        let ghost vs = string_views(result.values@);
        let ghost ds = string_views(result.descriptions@);
        match self {
            CompletionFormat::Simple | CompletionFormat::Bash => copy_strings(&result.values),
            _ => {
                let has_desc = any_description(&result.descriptions);
                if matches!(self, CompletionFormat::Display) && !has_desc {
                    proof {
                        assert forall|i: int| 0 <= i < ds.len() implies (#[trigger] ds[i]).len()
                            == 0 by {
                            assert(ds[i] == result.descriptions@[i]@);
                        }
                    }
                    return copy_strings(&result.values);
                }
                proof {
                    if self is Display {
                        let k = choose|k: int|
                            0 <= k < result.descriptions@.len()
                                && (#[trigger] result.descriptions@[k])@.len() != 0;
                        assert(ds[k].len() != 0);
                    }
                }
                let m = max_byte_len_exec(&result.values);
                let padding: usize = if m <= 35 { m + 4 } else { 39 };
                let width: usize = if m <= usize::MAX - 4 {
                    m + 4
                } else {
                    0
                };
                let n: usize = if result.values.len() <= result.descriptions.len() {
                    result.values.len()
                } else {
                    result.descriptions.len()
                };
                let mut out: Vec<String> = Vec::new();
                let mut i: usize = 0;
                while i < n
                    invariant
                        i <= n,
                        n == zip_len(vs, ds),
                        vs == string_views(result.values@),
                        ds == string_views(result.descriptions@),
                        padding == shared_padding(vs),
                        self is Display ==> width == max_byte_len(vs) + 4,
                        !(self is Simple || self is Bash),
                        out@.len() == i,
                        forall|j: int|
                            0 <= j < i ==> (#[trigger] out@[j])@ == value_lines(
                                self,
                                vs,
                                ds,
                                colorize,
                            )[j],
                        self is Display ==> !(forall|k: int|
                            0 <= k < ds.len() ==> (#[trigger] ds[k]).len() == 0),
                    decreases n - i,
                {
                    let value = result.values[i].as_str();
                    let desc = result.descriptions[i].as_str();
                    let line = match self {
                        CompletionFormat::Zsh => zsh_line_exec(value, desc, padding),
                        CompletionFormat::Fish => fish_line_exec(value, desc),
                        _ => display_line_exec(value, desc, width, colorize),
                    };
                    out.push(string_from_chars(&line));
                    i = i + 1;
                }
                assert(string_views(out@) =~= value_lines(self, vs, ds, colorize));
                out
            },
        }
    }

    /// Appends the hint lines of the hints that `shown` marks, in order.
    fn push_help_lines(self, out: &mut Vec<String>, helps: &Vec<ActiveHelp>, shown: &[bool])
        requires
            shown@.len() == helps@.len(),
        ensures
            string_views(final(out)@) == string_views(old(out)@) + help_lines(
                helps@,
                shown@,
                self,
            ),
    {
        let ghost start = string_views(out@);
        let mut i: usize = 0;
        assert(helps@.take(0) =~= Seq::<ActiveHelp>::empty());
        assert(start + Seq::<Seq<char>>::empty() =~= start);
        while i < helps.len()
            invariant
                i <= helps@.len(),
                shown@.len() == helps@.len(),
                string_views(out@) == start + help_lines(
                    helps@.take(i as int),
                    shown@.take(i as int),
                    self,
                ),
            decreases helps.len() - i,
        {
            proof {
                assert(helps@.take(i + 1).drop_last() =~= helps@.take(i as int));
                assert(shown@.take(i + 1).take(i as int) =~= shown@.take(i as int));
                assert(helps@.take(i + 1).last() == helps@[i as int]);
                assert(shown@.take(i + 1)[i as int] == shown@[i as int]);
            }
            if shown[i] {
                let mut line: Vec<char> = Vec::new();
                match self {
                    CompletionFormat::Bash => push_str_chars(&mut line, "_activehelp_ "),
                    CompletionFormat::Zsh => push_str_chars(&mut line, "_activehelp_::"),
                    CompletionFormat::Fish => push_str_chars(&mut line, "_activehelp_\t"),
                    _ => push_str_chars(&mut line, "[HELP] "),
                }
                push_str_chars(&mut line, helps[i].message.as_str());
                let ghost before = string_views(out@);
                out.push(string_from_chars(&line));
                assert(string_views(out@) =~= before.push(line@));
            }
            i = i + 1;
        }
        assert(helps@.take(i as int) =~= helps@);
        assert(shown@.take(i as int) =~= shown@);
    }

    /// The lines for `result` when each hint is shown exactly where
    /// `shown` says so: the value lines, then the hint lines.
    pub fn format_with_decisions(self, result: &CompletionResult, shown: &[bool], colorize: bool) -> (out:
        Vec<String>)
        requires
            format_defined(self, string_views(result.values@), string_views(result.descriptions@)),
            shown@.len() == result.active_help@.len(),
        ensures
            string_views(out@) == value_lines(
                self,
                string_views(result.values@),
                string_views(result.descriptions@),
                colorize,
            ) + help_lines(result.active_help@, shown@, self),
    {
        let mut out = self.format_values(result, colorize);
        self.push_help_lines(&mut out, &result.active_help, shown);
        out
    }

    /// The lines for `result` in this format: the value lines, then, when a
    /// context is given, a line for each hint that is shown on it.
    /// Display descriptions are dimmed when `colorize`.
    pub fn format(self, result: &CompletionResult, ctx: Option<&Context>, colorize: bool) -> (out:
        Vec<String>)
        requires
            format_defined(self, string_views(result.values@), string_views(result.descriptions@)),
        ensures
            ctx is None ==> string_views(out@) == value_lines(
                self,
                string_views(result.values@),
                string_views(result.descriptions@),
                colorize,
            ),
            ctx is Some ==> exists|shown: Seq<bool>|
                {
                    &&& shown.len() == result.active_help@.len()
                    &&& forall|i: int|
                        0 <= i < shown.len() ==> display_decision(
                            #[trigger] result.active_help@[i],
                            *ctx->0,
                            shown[i],
                        )
                    &&& string_views(out@) == value_lines(
                        self,
                        string_views(result.values@),
                        string_views(result.descriptions@),
                        colorize,
                    ) + help_lines(result.active_help@, shown, self)
                },
    {
        self.format_any(result, ctx, colorize)
    }

    /// As [`CompletionFormat::format`], for any lines: a line cut to 80
    /// bytes ends at the last character boundary at or before byte 77.
    pub(crate) fn format_any(self, result: &CompletionResult, ctx: Option<&Context>, colorize: bool) -> (out:
        Vec<String>)
        requires
            self is Display ==> max_byte_len(string_views(result.values@)) + 4 <= usize::MAX,
        ensures
            ctx is None ==> string_views(out@) == value_lines(
                self,
                string_views(result.values@),
                string_views(result.descriptions@),
                colorize,
            ),
            ctx is Some ==> exists|shown: Seq<bool>|
                {
                    &&& shown.len() == result.active_help@.len()
                    &&& forall|i: int|
                        0 <= i < shown.len() ==> display_decision(
                            #[trigger] result.active_help@[i],
                            *ctx->0,
                            shown[i],
                        )
                    &&& string_views(out@) == value_lines(
                        self,
                        string_views(result.values@),
                        string_views(result.descriptions@),
                        colorize,
                    ) + help_lines(result.active_help@, shown, self)
                },
    {
        match ctx {
            None => self.format_values(result, colorize),
            Some(c) => {
                let mut shown: Vec<bool> = Vec::new();
                let mut i: usize = 0;
                while i < result.active_help.len()
                    invariant
                        i <= result.active_help@.len(),
                        shown@.len() == i,
                        forall|j: int|
                            0 <= j < i ==> display_decision(
                                #[trigger] result.active_help@[j],
                                *c,
                                shown@[j],
                            ),
                    decreases result.active_help.len() - i,
                {
                    let d = result.active_help[i].should_display(c);
                    shown.push(d);
                    i = i + 1;
                }
                let mut out = self.format_values(result, colorize);
                self.push_help_lines(&mut out, &result.active_help, &shown);
                out
            },
        }
    }
}

// ---------------------------------------------------------------------------
// Laws
// ---------------------------------------------------------------------------

proof fn lemma_take_bytes_fits(s: Seq<char>, n: nat)
    ensures
        byte_len(take_bytes(s, n)) <= n,
    decreases s.len(),
{
    if s.len() == 0 || char_width(s[0]) > n {
        assert(take_bytes(s, n) =~= Seq::<char>::empty());
    } else {
        let rest = take_bytes(s.drop_first(), (n - char_width(s[0])) as nat);
        lemma_take_bytes_fits(s.drop_first(), (n - char_width(s[0])) as nat);
        crate::text::lemma_byte_len_concat(seq![s[0]], rest);
        lemma_byte_len_push(Seq::<char>::empty(), s[0]);
        assert(Seq::<char>::empty().push(s[0]) =~= seq![s[0]]);
    }
}

/// A line cut to 80 bytes is at most 80 bytes long.
pub proof fn lemma_truncate80_fits(line: Seq<char>)
    ensures
        byte_len(truncate80(line)) <= 80,
{
    if byte_len(line) > 80 {
        lemma_take_bytes_fits(line, 77);
        reveal_strlit("...");
        crate::text::lemma_byte_len_ascii("..."@);
        crate::text::lemma_byte_len_concat(take_bytes(line, 77), "..."@);
    }
}

/// Every zsh completion line is at most 80 bytes long.
pub proof fn lemma_zsh_lines_fit(values: Seq<Seq<char>>, descs: Seq<Seq<char>>, colorize: bool)
    ensures
        forall|i: int|
            0 <= i < value_lines(CompletionFormat::Zsh, values, descs, colorize).len() ==> byte_len(
                #[trigger] value_lines(CompletionFormat::Zsh, values, descs, colorize)[i],
            ) <= 80,
{
    assert forall|i: int|
        0 <= i < value_lines(CompletionFormat::Zsh, values, descs, colorize).len() implies byte_len(
        #[trigger] value_lines(CompletionFormat::Zsh, values, descs, colorize)[i],
    ) <= 80 by {
        lemma_truncate80_fits(zsh_full(values[i], descs[i], shared_padding(values)));
    }
}

/// `line` is `value`, a tab, and at most 80 more bytes.
pub open spec fn tab_tail_fits(line: Seq<char>, value: Seq<char>) -> bool {
    exists|tail: Seq<char>| line == value + "\t"@ + tail && byte_len(tail) <= 80
}

/// In every fish completion line with a description, the part after the
/// tab is at most 80 bytes long; a line without a description is the value.
pub proof fn lemma_fish_descriptions_fit(values: Seq<Seq<char>>, descs: Seq<Seq<char>>, colorize: bool)
    ensures
        forall|i: int|
            0 <= i < zip_len(values, descs) && descs[i].len() == 0 ==> #[trigger] value_lines(
                CompletionFormat::Fish,
                values,
                descs,
                colorize,
            )[i] == values[i],
        forall|i: int|
            0 <= i < zip_len(values, descs) && descs[i].len() != 0 ==> tab_tail_fits(
                #[trigger] value_lines(CompletionFormat::Fish, values, descs, colorize)[i],
                values[i],
            ),
{
    assert forall|i: int| 0 <= i < zip_len(values, descs) && descs[i].len() != 0 implies tab_tail_fits(
        #[trigger] value_lines(CompletionFormat::Fish, values, descs, colorize)[i],
        values[i],
    ) by {
        let tail = truncate80(descs[i]);
        lemma_truncate80_fits(descs[i]);
        assert(value_lines(CompletionFormat::Fish, values, descs, colorize)[i] == values[i] + "\t"@
            + tail);
    }
}

/// Bash and simple completion lines are the values themselves, whatever
/// their descriptions.
pub proof fn lemma_plain_formats_are_values(values: Seq<Seq<char>>, descs: Seq<Seq<char>>, colorize: bool)
    ensures
        value_lines(CompletionFormat::Bash, values, descs, colorize) == values,
        value_lines(CompletionFormat::Simple, values, descs, colorize) == values,
{
}

/// Whether the display column width for `values` fits in `usize`.
pub(crate) fn display_width_fits(values: &Vec<String>) -> (r: bool)
    ensures
        r == (max_byte_len(string_views(values@)) + 4 <= usize::MAX),
{
    let m = max_byte_len_exec(values);
    m <= usize::MAX - 4
}

/// The format a shell name selects: `zsh`, `fish`, `bash` and `display`
/// name their formats; anything else, or no name, is `Simple`.
pub open spec fn shell_format(shell: Option<Seq<char>>) -> CompletionFormat {
    match shell {
        Some(s) => if s == "zsh"@ {
            CompletionFormat::Zsh
        } else if s == "fish"@ {
            CompletionFormat::Fish
        } else if s == "bash"@ {
            CompletionFormat::Bash
        } else if s == "display"@ {
            CompletionFormat::Display
        } else {
            CompletionFormat::Simple
        },
        None => CompletionFormat::Simple,
    }
}

/// `out` is the given values, descriptions and hints formatted in `f`:
/// the value lines, then, when a context is given, the lines of the hints
/// shown on it. A display column wider than `usize` cannot occur; there the
/// values are listed plainly.
pub open spec fn formatted_parts(
    out: Seq<Seq<char>>,
    f: CompletionFormat,
    vs: Seq<Seq<char>>,
    ds: Seq<Seq<char>>,
    helps: Seq<ActiveHelp>,
    ctx: Option<Context>,
    c: bool,
) -> bool {
    if f is Display && max_byte_len(vs) + 4 > usize::MAX {
        out == vs
    } else {
        match ctx {
            None => out == value_lines(f, vs, ds, c),
            Some(x) => exists|shown: Seq<bool>|
                {
                    &&& shown.len() == helps.len()
                    &&& forall|i: int|
                        0 <= i < shown.len() ==> display_decision(#[trigger] helps[i], x, shown[i])
                    &&& out == value_lines(f, vs, ds, c) + help_lines(helps, shown, f)
                },
        }
    }
}

/// `out` is `result` formatted in `f` (see [`formatted_parts`]).
pub open spec fn formatted_as(
    out: Seq<Seq<char>>,
    f: CompletionFormat,
    result: CompletionResult,
    ctx: Option<Context>,
    c: bool,
) -> bool {
    formatted_parts(
        out,
        f,
        string_views(result.values@),
        string_views(result.descriptions@),
        result.active_help@,
        ctx,
        c,
    )
}

/// Formats `result` in `f` (see [`formatted_as`]).
pub(crate) fn format_checked(f: CompletionFormat, result: &CompletionResult, ctx: Option<&Context>, c: bool) -> (out:
    Vec<String>)
    ensures
        formatted_as(
            string_views(out@),
            f,
            *result,
            match ctx {
                Some(x) => Some(*x),
                None => None,
            },
            c,
        ),
{
    if matches!(f, CompletionFormat::Display) && !display_width_fits(&result.values) {
        return copy_strings(&result.values);
    }
    f.format_any(result, ctx, c)
}
} // verus!
