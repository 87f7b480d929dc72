//! Terminal layout: width selection, word wrapping and two-column help
//! entries.

use vstd::prelude::*;
use crate::text::{
    byte_len, lemma_byte_len_bounds, lemma_byte_len_concat, lemma_byte_len_push, parse_usize,
    parse_usize_spec, push_repeat, push_slice, spaces, str_chars, string_from_chars,
};

verus! {

/// Width used when neither `COLUMNS` nor the terminal gives one.
pub const DEFAULT_TERMINAL_WIDTH: usize = 80;

/// Narrowest width the library lays text out for.
pub const MINIMUM_TERMINAL_WIDTH: usize = 40;

/// Widest width the library lays text out for.
pub const MAXIMUM_TERMINAL_WIDTH: usize = 120;

pub open spec fn clamp_spec(w: nat) -> nat {
    if w < 40 {
        40
    } else if w > 120 {
        120
    } else {
        w
    }
}

/// `width` clamped to the range 40..=120.
pub fn clamp_width(width: usize) -> (r: usize)
    ensures
        r == clamp_spec(width as nat),
{
    if width < MINIMUM_TERMINAL_WIDTH {
        MINIMUM_TERMINAL_WIDTH
    } else if width > MAXIMUM_TERMINAL_WIDTH {
        MAXIMUM_TERMINAL_WIDTH
    } else {
        width
    }
}

/// The terminal width chosen from the value of the `COLUMNS` variable (if
/// set) and a width reported by the terminal (if any).
pub open spec fn terminal_width_spec(columns: Option<Seq<char>>, detected: Option<usize>) -> nat {
    match columns {
        Some(c) if parse_usize_spec(c) is Some => clamp_spec(parse_usize_spec(c)->0 as nat),
        _ => match detected {
            Some(w) => clamp_spec(w as nat),
            None => 80,
        },
    }
}

/// Picks the layout width: a numeric `COLUMNS` value wins, then the width
/// the terminal reports, then 80; the first two are clamped to 40..=120.
pub fn terminal_width_from(columns: Option<&str>, detected: Option<usize>) -> (w: usize)
    ensures
        w == terminal_width_spec(
            match columns {
                Some(c) => Some(c@),
                None => None,
            },
            detected,
        ),
        40 <= w <= 120,
{
    if let Some(c) = columns {
        if let Some(n) = parse_usize(c) {
            return clamp_width(n);
        }
    }
    match detected {
        Some(w) => clamp_width(w),
        None => DEFAULT_TERMINAL_WIDTH,
    }
}

// ---------------------------------------------------------------------------
// Splitting
// ---------------------------------------------------------------------------

/// Whitespace as `char::is_whitespace` defines it (Unicode `White_Space`).
pub open spec fn is_ws(c: char) -> bool {
    let v = c as u32;
    ||| 0x09 <= v <= 0x0D
    ||| v == 0x20
    ||| v == 0x85
    ||| v == 0xA0
    ||| v == 0x1680
    ||| 0x2000 <= v <= 0x200A
    ||| v == 0x2028
    ||| v == 0x2029
    ||| v == 0x202F
    ||| v == 0x205F
    ||| v == 0x3000
}

pub fn is_ws_exec(c: char) -> (r: bool)
    ensures
        r == is_ws(c),
{
    let v = c as u32;
    (0x09 <= v && v <= 0x0D) || v == 0x20 || v == 0x85 || v == 0xA0 || v == 0x1680 || (0x2000
        <= v && v <= 0x200A) || v == 0x2028 || v == 0x2029 || v == 0x202F || v == 0x205F || v
        == 0x3000
}

/// The pieces of `s` between occurrences of `sep` (as `str::split`): always
/// at least one piece.
pub open spec fn split_on(s: Seq<char>, sep: char) -> Seq<Seq<char>>
    decreases s.len(),
{
    if s.len() == 0 {
        seq![Seq::empty()]
    } else {
        let parts = split_on(s.drop_last(), sep);
        if s.last() == sep {
            parts.push(Seq::empty())
        } else {
            parts.update(parts.len() - 1, parts.last().push(s.last()))
        }
    }
}

pub proof fn lemma_split_on_nonempty(s: Seq<char>, sep: char)
    ensures
        split_on(s, sep).len() >= 1,
    decreases s.len(),
{
    if s.len() > 0 {
        lemma_split_on_nonempty(s.drop_last(), sep);
    }
}

/// Words of `s` found so far, and the word being read.
pub open spec fn words_state(s: Seq<char>) -> (Seq<Seq<char>>, Seq<char>)
    decreases s.len(),
{
    if s.len() == 0 {
        (Seq::empty(), Seq::empty())
    } else {
        let (ws, cur) = words_state(s.drop_last());
        if is_ws(s.last()) {
            if cur.len() > 0 {
                (ws.push(cur), Seq::empty())
            } else {
                (ws, cur)
            }
        } else {
            (ws, cur.push(s.last()))
        }
    }
}

/// The maximal runs of non-whitespace characters of `s` (as
/// `str::split_whitespace`).
pub open spec fn words_of(s: Seq<char>) -> Seq<Seq<char>> {
    let (ws, cur) = words_state(s);
    if cur.len() > 0 {
        ws.push(cur)
    } else {
        ws
    }
}

/// `parts` joined by `sep`.
pub open spec fn join(parts: Seq<Seq<char>>, sep: char) -> Seq<char>
    decreases parts.len(),
{
    if parts.len() == 0 {
        Seq::empty()
    } else if parts.len() == 1 {
        parts[0]
    } else {
        join(parts.drop_last(), sep).push(sep) + parts.last()
    }
}

pub fn split_chars(s: &[char], sep: char) -> (r: Vec<Vec<char>>)
    ensures
        r@.len() == split_on(s@, sep).len(),
        forall|i: int| 0 <= i < r@.len() ==> #[trigger] r@[i]@ == split_on(s@, sep)[i],
{
    let mut parts: Vec<Vec<char>> = Vec::new();
    let mut cur: Vec<char> = Vec::new();
    let mut i: usize = 0;
    assert(s@.take(0) =~= Seq::<char>::empty());
    while i < s.len()
        invariant
            i <= s@.len(),
            parts@.len() + 1 == split_on(s@.take(i as int), sep).len(),
            forall|k: int| 0 <= k < parts@.len() ==> #[trigger] parts@[k]@ == split_on(
                s@.take(i as int),
                sep,
            )[k],
            cur@ == split_on(s@.take(i as int), sep).last(),
        decreases s.len() - i,
    {
        let c = s[i];
        proof {
            assert(s@.take(i + 1).drop_last() =~= s@.take(i as int));
            assert(s@.take(i + 1).last() == c);
            lemma_split_on_nonempty(s@.take(i as int), sep);
        }
        if c == sep {
            parts.push(cur);
            cur = Vec::new();
        } else {
            cur.push(c);
        }
        i = i + 1;
    }
    parts.push(cur);
    proof {
        assert(s@.take(i as int) =~= s@);
        lemma_split_on_nonempty(s@, sep);
    }
    parts
}

pub fn words_chars(s: &[char]) -> (r: Vec<Vec<char>>)
    ensures
        r@.len() == words_of(s@).len(),
        forall|i: int| 0 <= i < r@.len() ==> #[trigger] r@[i]@ == words_of(s@)[i],
{
    let mut words: Vec<Vec<char>> = Vec::new();
    let mut cur: Vec<char> = Vec::new();
    let mut i: usize = 0;
    assert(s@.take(0) =~= Seq::<char>::empty());
    while i < s.len()
        invariant
            i <= s@.len(),
            words@.len() == words_state(s@.take(i as int)).0.len(),
            forall|k: int| 0 <= k < words@.len() ==> #[trigger] words@[k]@ == words_state(
                s@.take(i as int),
            ).0[k],
            cur@ == words_state(s@.take(i as int)).1,
        decreases s.len() - i,
    {
        let c = s[i];
        proof {
            assert(s@.take(i + 1).drop_last() =~= s@.take(i as int));
            assert(s@.take(i + 1).last() == c);
        }
        if is_ws_exec(c) {
            if cur.len() > 0 {
                words.push(cur);
                cur = Vec::new();
            }
        } else {
            cur.push(c);
        }
        i = i + 1;
    }
    assert(s@.take(i as int) =~= s@);
    if cur.len() > 0 {
        words.push(cur);
    }
    words
}

// ---------------------------------------------------------------------------
// Wrapping
// ---------------------------------------------------------------------------

/// Greedy line filling over `words`: the finished lines and the line being
/// filled. A word joins the current line (after one space) when the line,
/// measured in bytes, stays within `width`, or when the line is empty;
/// otherwise the line is finished and the next one starts with `indent`.
pub open spec fn fill_state(words: Seq<Seq<char>>, width: nat, indent: Seq<char>) -> (
    Seq<Seq<char>>,
    Seq<char>,
)
    decreases words.len(),
{
    if words.len() == 0 {
        (Seq::empty(), Seq::empty())
    } else {
        let (done, cur) = fill_state(words.drop_last(), width, indent);
        let w = words.last();
        if cur.len() == 0 {
            (done, w)
        } else if byte_len(cur) + 1 + byte_len(w) <= width {
            (done, cur.push(' ') + w)
        } else {
            (done.push(cur), indent + w)
        }
    }
}

/// The lines one paragraph wraps to (none for a blank paragraph).
pub open spec fn paragraph_lines(p: Seq<char>, width: nat, indent: Seq<char>) -> Seq<Seq<char>> {
    let (done, cur) = fill_state(words_of(p), width, indent);
    if cur.len() > 0 {
        done.push(cur)
    } else {
        done
    }
}

/// `line` fits in `width` bytes, or holds one of `words` alone (after
/// `indent` on a continuation line): a word too long for the width.
pub open spec fn fits_or_lone_word(line: Seq<char>, words: Seq<Seq<char>>, width: nat, indent: Seq<char>) -> bool {
    byte_len(line) <= width || exists|j: int|
        0 <= j < words.len() && (line == #[trigger] words[j] || line == indent + words[j])
}

proof fn lemma_word_runs_nonempty(s: Seq<char>)
    ensures
        forall|i: int| 0 <= i < words_state(s).0.len() ==> (#[trigger] words_state(s).0[i]).len() > 0,
    decreases s.len(),
{
    if s.len() > 0 {
        lemma_word_runs_nonempty(s.drop_last());
        let (ws, cur) = words_state(s.drop_last());
        let r = words_state(s);
        if is_ws(s.last()) {
            if cur.len() > 0 {
                assert(r.0 == ws.push(cur));
                assert forall|i: int| 0 <= i < r.0.len() implies (#[trigger] r.0[i]).len() > 0 by {
                    if i < ws.len() {
                        assert(r.0[i] == ws[i]);
                    }
                }
            }
        } else {
            assert(r.0 == ws);
        }
    }
}

proof fn lemma_words_nonempty(s: Seq<char>)
    ensures
        forall|i: int| 0 <= i < words_of(s).len() ==> (#[trigger] words_of(s)[i]).len() > 0,
{
    lemma_word_runs_nonempty(s);
}

proof fn lemma_fill_state_lines(words: Seq<Seq<char>>, width: nat, indent: Seq<char>)
    requires
        forall|i: int| 0 <= i < words.len() ==> (#[trigger] words[i]).len() > 0,
    ensures
        ({
            let (done, cur) = fill_state(words, width, indent);
            &&& forall|k: int| 0 <= k < done.len() ==> fits_or_lone_word(#[trigger] done[k], words, width, indent)
            &&& cur.len() > 0 ==> fits_or_lone_word(cur, words, width, indent)
            &&& forall|k: int| 1 <= k < done.len() ==> indent.is_prefix_of(#[trigger] done[k])
            &&& done.len() > 0 ==> cur.len() > 0 && indent.is_prefix_of(cur)
            &&& words.len() > 0 ==> cur.len() > 0
        }),
    decreases words.len(),
{
    if words.len() > 0 {
        let prev = words.drop_last();
        lemma_fill_state_lines(prev, width, indent);
        let (done, cur) = fill_state(prev, width, indent);
        let w = words.last();
        let j = words.len() - 1;
        assert(words[j] == w);
        assert forall|k: int| 0 <= k < done.len() implies fits_or_lone_word(#[trigger] done[k], words, width, indent) by {
            assert(fits_or_lone_word(done[k], prev, width, indent));
            if byte_len(done[k]) > width {
                let i = choose|i: int| 0 <= i < prev.len() && (done[k] == #[trigger] prev[i] || done[k] == indent + prev[i]);
                assert(prev[i] == words[i]);
            }
        }
        if cur.len() > 0 {
            assert(fits_or_lone_word(cur, prev, width, indent));
            if byte_len(cur) > width {
                let i = choose|i: int| 0 <= i < prev.len() && (cur == #[trigger] prev[i] || cur == indent + prev[i]);
                assert(prev[i] == words[i]);
            }
        }
        if cur.len() == 0 {
        } else if byte_len(cur) + 1 + byte_len(w) <= width {
            lemma_byte_len_push(cur, ' ');
            lemma_byte_len_concat(cur.push(' '), w);
            if done.len() > 0 {
                assert(indent.is_prefix_of(cur.push(' ') + w)) by {
                    assert forall|i: int| 0 <= i < indent.len() implies (cur.push(' ') + w)[i] == indent[i] by {
                        assert(cur[i] == indent[i]);
                    }
                }
            }
        } else {
            assert(indent.is_prefix_of(indent + w)) by {
                assert forall|i: int| 0 <= i < indent.len() implies (indent + w)[i] == indent[i] by {}
            }
        }
    }
}

/// Wrapping a paragraph keeps to the width: every line fits in `width`
/// bytes unless it holds a single word too long for it; and every line
/// after the first starts with the indent.
pub proof fn lemma_wrapped_lines_fit(p: Seq<char>, width: nat, indent: Seq<char>)
    ensures
        forall|k: int|
            0 <= k < paragraph_lines(p, width, indent).len() ==> fits_or_lone_word(
                #[trigger] paragraph_lines(p, width, indent)[k],
                words_of(p),
                width,
                indent,
            ),
        forall|k: int|
            1 <= k < paragraph_lines(p, width, indent).len() ==> indent.is_prefix_of(
                #[trigger] paragraph_lines(p, width, indent)[k],
            ),
{
    lemma_words_nonempty(p);
    lemma_fill_state_lines(words_of(p), width, indent);
    let (done, cur) = fill_state(words_of(p), width, indent);
    let lines = paragraph_lines(p, width, indent);
    if cur.len() > 0 {
        assert forall|k: int| 0 <= k < lines.len() implies fits_or_lone_word(#[trigger] lines[k], words_of(p), width, indent) by {
            if k < done.len() {
                assert(lines[k] == done[k]);
            }
        }
        assert forall|k: int| 1 <= k < lines.len() implies indent.is_prefix_of(#[trigger] lines[k]) by {
            if k < done.len() {
                assert(lines[k] == done[k]);
            }
        }
    }
}

/// What `wrap_text` returns: each `\n`-separated paragraph wrapped on its
/// own, paragraphs separated by a single `\n`, blank paragraphs kept as
/// empty lines; the text unchanged when it is empty or `width` is zero.
pub open spec fn wrap_spec(text: Seq<char>, width: nat, indent: nat) -> Seq<char> {
    if text.len() == 0 || width == 0 {
        text
    } else {
        let paras = split_on(text, '\n');
        join(
            Seq::new(paras.len(), |i: int| join(paragraph_lines(paras[i], width, spaces(indent)), '\n')),
            '\n',
        )
    }
}

pub proof fn lemma_join_push(parts: Seq<Seq<char>>, sep: char, x: Seq<char>)
    ensures
        join(parts.push(x), sep) == if parts.len() == 0 {
            x
        } else {
            join(parts, sep).push(sep) + x
        },
{
    assert(parts.push(x).drop_last() =~= parts);
    if parts.len() == 0 {
        assert(parts.push(x)[0] == x);
    }
}

/// Byte length of a character buffer, as a wide integer.
fn byte_len_wide(s: &[char]) -> (n: u128)
    ensures
        n == byte_len(s@),
        n <= 4 * s@.len(),
        s@.len() <= usize::MAX,
{
    let mut n: u128 = 0;
    let mut i: usize = 0;
    while i < s.len()
        invariant
            i <= s@.len(),
            n == byte_len(s@.take(i as int)),
            n <= 4 * i,
        decreases s.len() - i,
    {
        proof {
            lemma_byte_len_push(s@.take(i as int), s@[i as int]);
            assert(s@.take(i as int).push(s@[i as int]) =~= s@.take(i + 1));
        }
        n = n + crate::text::char_width_exec(s[i]) as u128;
        i = i + 1;
    }
    assert(s@.take(i as int) =~= s@);
    n
}

/// Appends the lines of one paragraph to `out`, separated by `\n`.
fn wrap_paragraph(out: &mut Vec<char>, para: &[char], width: usize, indent: &[char])
    ensures
        final(out)@ == old(out)@ + join(paragraph_lines(para@, width as nat, indent@), '\n'),
{
    let words = words_chars(para);
    let ghost ws = words_of(para@);
    let mut lines: Vec<Vec<char>> = Vec::new();
    let mut cur: Vec<char> = Vec::new();
    let mut cur_bytes: u128 = 0;
    let mut i: usize = 0;
    assert(ws.take(0) =~= Seq::<Seq<char>>::empty());
    while i < words.len()
        invariant
            i <= words@.len(),
            words@.len() == ws.len(),
            forall|k: int| 0 <= k < words@.len() ==> #[trigger] words@[k]@ == ws[k],
            lines@.len() == fill_state(ws.take(i as int), width as nat, indent@).0.len(),
            forall|k: int| 0 <= k < lines@.len() ==> #[trigger] lines@[k]@ == fill_state(
                ws.take(i as int),
                width as nat,
                indent@,
            ).0[k],
            cur@ == fill_state(ws.take(i as int), width as nat, indent@).1,
            cur_bytes == byte_len(cur@),
        decreases words.len() - i,
    {
        let w = &words[i];
        let wb = byte_len_wide(w);
        let cl = cur.len();
        let il = indent.len();
        proof {
            assert(ws.take(i + 1).drop_last() =~= ws.take(i as int));
            assert(ws.take(i + 1).last() == w@);
            lemma_byte_len_bounds(cur@);
            lemma_byte_len_bounds(w@);
        }
        if cur.len() == 0 {
            cur = w.clone();
            cur_bytes = wb;
        } else if cur_bytes + 1 + wb <= width as u128 {
            proof {
                lemma_byte_len_push(cur@, ' ');
                lemma_byte_len_concat(cur@.push(' '), w@);
            }
            cur.push(' ');
            push_slice(&mut cur, w);
            cur_bytes = cur_bytes + 1 + wb;
        } else {
            lines.push(cur);
            let mut next: Vec<char> = Vec::new();
            push_slice(&mut next, indent);
            push_slice(&mut next, w);
            proof {
                lemma_byte_len_concat(indent@, w@);
            }
            cur = next;
            cur_bytes = byte_len_wide(indent) + wb;
        }
        i = i + 1;
    }
    assert(ws.take(i as int) =~= ws);
    if cur.len() > 0 {
        lines.push(cur);
    }
    // join the lines
    let ghost pl = paragraph_lines(para@, width as nat, indent@);
    let ghost start = out@;
    let mut k: usize = 0;
    assert(pl.take(0) =~= Seq::<Seq<char>>::empty());
    while k < lines.len()
        invariant
            k <= lines@.len(),
            lines@.len() == pl.len(),
            forall|m: int| 0 <= m < lines@.len() ==> #[trigger] lines@[m]@ == pl[m],
            out@ == start + join(pl.take(k as int), '\n'),
        decreases lines.len() - k,
    {
        proof {
            assert(pl.take(k + 1) =~= pl.take(k as int).push(pl[k as int]));
            lemma_join_push(pl.take(k as int), '\n', pl[k as int]);
        }
        if k > 0 {
            out.push('\n');
        }
        push_slice(out, &lines[k]);
        proof {
            if k > 0 {
                assert(start + join(pl.take(k + 1), '\n') =~= (start + join(pl.take(k as int), '\n')).push('\n') + pl[k as int]);
            } else {
                assert(start + join(pl.take(k + 1), '\n') =~= start + pl[k as int]);
            }
        }
        k = k + 1;
    }
    assert(pl.take(k as int) =~= pl);
}

/// Wraps `text` to `width` bytes per line, breaking only between words;
/// continuation lines of a paragraph start with `indent` spaces. A word
/// longer than the width stays whole on a line of its own.
pub fn wrap_text(text: &str, width: usize, indent: Option<usize>) -> (r: String)
    ensures
        r@ == wrap_spec(
            text@,
            width as nat,
            match indent {
                Some(n) => n as nat,
                None => 0,
            },
        ),
{
    let chars = str_chars(text);
    if chars.len() == 0 || width == 0 {
        return string_from_chars(&chars);
    }
    let n = match indent {
        Some(n) => n,
        None => 0,
    };
    let mut indent_chars: Vec<char> = Vec::new();
    push_repeat(&mut indent_chars, ' ', n);
    assert(indent_chars@ =~= spaces(n as nat));
    let paras = split_chars(&chars, '\n');
    let ghost ps = split_on(text@, '\n');
    let ghost blocks = Seq::new(
        ps.len(),
        |i: int| join(paragraph_lines(ps[i], width as nat, spaces(n as nat)), '\n'),
    );
    let mut out: Vec<char> = Vec::new();
    let mut i: usize = 0;
    assert(blocks.take(0) =~= Seq::<Seq<char>>::empty());
    while i < paras.len()
        invariant
            i <= paras@.len(),
            paras@.len() == ps.len(),
            blocks.len() == ps.len(),
            indent_chars@ == spaces(n as nat),
            forall|m: int| 0 <= m < paras@.len() ==> #[trigger] paras@[m]@ == ps[m],
            forall|m: int| 0 <= m < ps.len() ==> #[trigger] blocks[m] == join(
                paragraph_lines(ps[m], width as nat, spaces(n as nat)),
                '\n',
            ),
            out@ == join(blocks.take(i as int), '\n'),
        decreases paras.len() - i,
    {
        proof {
            assert(blocks.take(i + 1) =~= blocks.take(i as int).push(blocks[i as int]));
            lemma_join_push(blocks.take(i as int), '\n', blocks[i as int]);
        }
        let ghost before = out@;
        if i > 0 {
            out.push('\n');
        }
        wrap_paragraph(&mut out, &paras[i], width, &indent_chars);
        proof {
            if i > 0 {
                assert(out@ =~= before.push('\n') + blocks[i as int]);
            } else {
                assert(out@ =~= before + blocks[i as int]);
                assert(before.len() == 0);
                assert(out@ =~= blocks[i as int]);
            }
        }
        i = i + 1;
    }
    assert(blocks.take(i as int) =~= blocks);
    string_from_chars(&out)
}


/// `wrap_text` at the width `terminal_width_from` picks for the given
/// `COLUMNS` value and terminal-reported width.
pub fn wrap_text_to_terminal(
    text: &str,
    indent: Option<usize>,
    columns: Option<&str>,
    detected: Option<usize>,
) -> (r: String)
    ensures
        r@ == wrap_spec(
            text@,
            terminal_width_spec(
                match columns {
                    Some(c) => Some(c@),
                    None => None,
                },
                detected,
            ),
            match indent {
                Some(n) => n as nat,
                None => 0,
            },
        ),
{
    let width = terminal_width_from(columns, detected);
    wrap_text(text, width, indent)
}

/// What `format_help_entry` returns.
pub open spec fn help_entry_spec(left: Seq<char>, right: Seq<char>, left_width: nat, total_width: nat) -> Seq<char> {
    if right.len() == 0 {
        left
    } else {
        let right_width: nat = if total_width >= left_width + 2 {
            (total_width - (left_width + 2)) as nat
        } else {
            0
        };
        let wrapped = wrap_spec(right, right_width, left_width + 2);
        if byte_len(left) <= left_width {
            left + spaces((left_width - byte_len(left)) as nat) + spaces(2) + wrapped
        } else {
            left.push('\n') + spaces(left_width + 2) + wrapped
        }
    }
}

/// Lays out a two-column help entry: `left_column` padded to `left_width`
/// bytes, two spaces, then `right_column` wrapped to the remaining width
/// with continuation lines aligned under it. When the left column is wider
/// than `left_width`, the description starts on the next line, indented.
pub fn format_help_entry(
    left_column: &str,
    right_column: &str,
    left_width: usize,
    total_width: usize,
) -> (r: String)
    requires
        left_width + 2 <= usize::MAX,
    ensures
        r@ == help_entry_spec(left_column@, right_column@, left_width as nat, total_width as nat),
{
    if right_column.is_empty() {
        return crate::text::to_owned_string(left_column);
    }
    let right_width = total_width.saturating_sub(left_width + 2);
    let left_bytes = crate::text::str_byte_len(left_column);
    let wrapped = wrap_text(right_column, right_width, Some(left_width + 2));
    let wrapped_chars = str_chars(wrapped.as_str());
    let mut out = str_chars(left_column);
    if left_bytes <= left_width {
        push_repeat(&mut out, ' ', left_width - left_bytes);
        push_repeat(&mut out, ' ', 2);
        push_slice(&mut out, &wrapped_chars);
    } else {
        out.push('\n');
        push_repeat(&mut out, ' ', left_width + 2);
        push_slice(&mut out, &wrapped_chars);
    }
    string_from_chars(&out)
}

} // verus!
