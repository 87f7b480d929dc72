//! Flags: their names, types and the values each type accepts.

use vstd::prelude::*;
use crate::context::{bool_word, parse_bool_word};
use crate::error::{Error, Result};
use crate::text::{
    all_digits, ascii_lower, ascii_lower_chars, chars_eq, is_digit, parse_i64, parse_i64_spec,
    prefix_chars, push_str_chars, str_chars, string_from_chars, to_owned_string, IntoText,
};

verus! {

/// The type of value a flag takes.
#[derive(Clone, Copy, Debug, PartialEq, Eq, Structural)]
pub enum FlagType {
    /// Any text.
    String,
    /// A boolean word (`true`/`false`, `yes`/`no`, `1`/`0`, ...).
    Bool,
    /// A signed 64-bit integer.
    Int,
    /// A floating-point number.
    Float,
    /// Text; the flag may be given several times.
    StringSlice,
}

/// What the parser and the help text need to know of a flag: its long and
/// short names, its description, whether it is required, its value type,
/// and its default value as help shows it (such as `false` or `"x"`).
pub struct FlagSpec {
    /// The long name (`verbose` for `--verbose`).
    pub name: String,
    /// The short name (`v` for `-v`).
    pub short: Option<char>,
    /// What the flag does.
    pub usage: String,
    /// Whether the flag must be given.
    pub required: bool,
    /// The type of its value.
    pub value_type: FlagType,
    /// The default value, written as help shows it.
    pub default_text: Option<String>,
}

impl FlagSpec {
    /// A string flag named `name`, with no short name, description or
    /// default.
    pub fn new<S: IntoText>(name: S) -> (f: FlagSpec)
        ensures
            f.name@ == name.text(),
            f.short is None,
            f.usage@ == Seq::<char>::empty(),
            !f.required,
            f.value_type == FlagType::String,
            f.default_text is None,
    {
        FlagSpec {
            name: name.into_string(),
            short: None,
            usage: String::new(),
            required: false,
            value_type: FlagType::String,
            default_text: None,
        }
    }

    /// This flag with short name `short`.
    pub fn short(self, short: char) -> (f: FlagSpec)
        ensures
            f.short == Some(short),
            f.name == self.name && f.usage == self.usage && f.required == self.required
                && f.value_type == self.value_type && f.default_text == self.default_text,
    {
        FlagSpec { short: Some(short), ..self }
    }

    /// This flag with description `usage`.
    pub fn usage<S: IntoText>(self, usage: S) -> (f: FlagSpec)
        ensures
            f.usage@ == usage.text(),
            f.name == self.name && f.short == self.short && f.required == self.required
                && f.value_type == self.value_type && f.default_text == self.default_text,
    {
        FlagSpec { usage: usage.into_string(), ..self }
    }

    /// This flag, required.
    pub fn required(self) -> (f: FlagSpec)
        ensures
            f.required,
            f.name == self.name && f.short == self.short && f.usage == self.usage
                && f.value_type == self.value_type && f.default_text == self.default_text,
    {
        FlagSpec { required: true, ..self }
    }

    /// This flag with value type `value_type`.
    pub fn value_type(self, value_type: FlagType) -> (f: FlagSpec)
        ensures
            f.value_type == value_type,
            f.name == self.name && f.short == self.short && f.usage == self.usage
                && f.required == self.required && f.default_text == self.default_text,
    {
        FlagSpec { value_type, ..self }
    }

    /// This flag with its default value shown in help as `text`.
    pub fn default_text<S: IntoText>(self, text: S) -> (f: FlagSpec)
        ensures
            f.default_text matches Some(t) && t@ == text.text(),
            f.name == self.name && f.short == self.short && f.usage == self.usage
                && f.required == self.required && f.value_type == self.value_type,
    {
        FlagSpec { default_text: Some(text.into_string()), ..self }
    }

    /// A copy of this flag.
    pub fn duplicate(&self) -> (r: FlagSpec)
        ensures
            r.name@ == self.name@,
            r.short == self.short,
            r.usage@ == self.usage@,
            r.required == self.required,
            r.value_type == self.value_type,
            match (r.default_text, self.default_text) {
                (Some(a), Some(b)) => a@ == b@,
                (None, None) => true,
                _ => false,
            },
    {
        FlagSpec {
            name: self.name.clone(),
            short: self.short,
            usage: self.usage.clone(),
            required: self.required,
            value_type: self.value_type,
            default_text: match &self.default_text {
                Some(t) => Some(t.clone()),
                None => None,
            },
        }
    }
}

// ---------------------------------------------------------------------------
// Number syntax
// ---------------------------------------------------------------------------

/// `Digit* '.' Digit*` with at least one digit, or `Digit+`.
pub open spec fn mantissa(m: Seq<char>) -> bool {
    ||| all_digits(m)
    ||| exists|d: int|
        0 <= d < m.len() && m[d] == '.' && (d == 0 || all_digits(m.take(d))) && (d + 1 == m.len()
            || all_digits(m.skip(d + 1))) && m.len() >= 2
}

/// An exponent after the `e`: an optional sign and at least one digit.
pub open spec fn exponent(x: Seq<char>) -> bool {
    ||| all_digits(x)
    ||| x.len() > 0 && (x[0] == '+' || x[0] == '-') && all_digits(x.drop_first())
}

/// A decimal number: a mantissa, then optionally `e` or `E` and an
/// exponent.
pub open spec fn decimal_number(s: Seq<char>) -> bool {
    ||| mantissa(s)
    ||| exists|k: int|
        0 <= k < s.len() && (s[k] == 'e' || s[k] == 'E') && mantissa(s.take(k)) && exponent(
            s.skip(k + 1),
        )
}

/// The text `f64::from_str` accepts: an optional sign, then `inf`,
/// `infinity` or `nan` in any ASCII case, or a decimal number.
pub open spec fn float_syntax(s: Seq<char>) -> bool {
    let body = if s.len() > 0 && (s[0] == '+' || s[0] == '-') {
        s.drop_first()
    } else {
        s
    };
    ||| ascii_lower(body) == "inf"@
    ||| ascii_lower(body) == "infinity"@
    ||| ascii_lower(body) == "nan"@
    ||| decimal_number(body)
}

/// Whether every character of `s[lo..hi]` is a digit and the range is
/// not empty.
fn digits_in(s: &[char], lo: usize, hi: usize) -> (r: bool)
    requires
        lo <= hi <= s@.len(),
    ensures
        r == all_digits(s@.subrange(lo as int, hi as int)),
{
    if lo == hi {
        return false;
    }
    let mut i = lo;
    while i < hi
        invariant
            lo <= i <= hi <= s@.len(),
            forall|k: int| lo <= k < i ==> is_digit(s@[k]),
        decreases hi - i,
    {
        if !(s[i] >= '0' && s[i] <= '9') {
            assert(!is_digit(s@.subrange(lo as int, hi as int)[i - lo]));
            return false;
        }
        i = i + 1;
    }
    assert forall|k: int| 0 <= k < hi - lo implies is_digit(
        #[trigger] s@.subrange(lo as int, hi as int)[k],
    ) by {
        assert(s@.subrange(lo as int, hi as int)[k] == s@[lo + k]);
    }
    true
}

/// The first position in `s[lo..hi]` holding `a` or `b`, or `hi`.
fn find_either(s: &[char], lo: usize, hi: usize, a: char, b: char) -> (k: usize)
    requires
        lo <= hi <= s@.len(),
    ensures
        lo <= k <= hi,
        forall|j: int| lo <= j < k ==> s@[j] != a && s@[j] != b,
        k < hi ==> (s@[k as int] == a || s@[k as int] == b),
{
    let mut k = lo;
    while k < hi
        invariant
            lo <= k <= hi <= s@.len(),
            forall|j: int| lo <= j < k ==> s@[j] != a && s@[j] != b,
        decreases hi - k,
    {
        if s[k] == a || s[k] == b {
            return k;
        }
        k = k + 1;
    }
    k
}

/// Whether `s[lo..hi]` is a mantissa.
fn mantissa_in(s: &[char], lo: usize, hi: usize) -> (r: bool)
    requires
        lo <= hi <= s@.len(),
    ensures
        r == mantissa(s@.subrange(lo as int, hi as int)),
{
    let ghost m = s@.subrange(lo as int, hi as int);
    let d = find_either(s, lo, hi, '.', '.');
    if d == hi {
        let r = digits_in(s, lo, hi);
        proof {
            if !r {
                assert forall|e: int| 0 <= e < m.len() implies m[e] != '.' by {
                    assert(m[e] == s@[lo + e]);
                }
            }
        }
        return r;
    }
    let left_ok = d == lo || digits_in(s, lo, d);
    let right_ok = d + 1 == hi || digits_in(s, d + 1, hi);
    let r = left_ok && right_ok && hi - lo >= 2;
    proof {
        let dd = (d - lo) as int;
        assert(m[dd] == '.');
        assert(m.take(dd) =~= s@.subrange(lo as int, d as int));
        assert(m.skip(dd + 1) =~= s@.subrange(d + 1, hi as int));
        assert(!all_digits(m)) by {
            assert(!is_digit(m[dd]));
        }
        if r {
            assert(mantissa(m));
        } else {
            assert forall|e: int|
                0 <= e < m.len() && m[e] == '.' && (e == 0 || all_digits(m.take(e))) && (e + 1
                    == m.len() || all_digits(m.skip(e + 1))) && m.len() >= 2 implies false by {
                if e > dd {
                    assert(m.take(e)[dd] == '.');
                    assert(!is_digit(m.take(e)[dd]));
                } else if e < dd {
                    assert(m.skip(e + 1)[dd - e - 1] == m[dd]);
                    assert(!is_digit(m.skip(e + 1)[dd - e - 1]));
                }
            }
        }
    }
    r
}

/// Whether `s[lo..hi]` is an exponent.
fn exponent_in(s: &[char], lo: usize, hi: usize) -> (r: bool)
    requires
        lo <= hi <= s@.len(),
    ensures
        r == exponent(s@.subrange(lo as int, hi as int)),
{
    let ghost x = s@.subrange(lo as int, hi as int);
    if lo < hi && (s[lo] == '+' || s[lo] == '-') {
        assert(x[0] == s@[lo as int]);
        assert(x.drop_first() =~= s@.subrange(lo + 1, hi as int));
        assert(!is_digit(x[0]));
        digits_in(s, lo + 1, hi)
    } else {
        proof {
            if lo < hi {
                assert(x[0] == s@[lo as int]);
            }
        }
        digits_in(s, lo, hi)
    }
}

/// Whether `s[lo..]` is a decimal number.
fn decimal_number_in(s: &[char], lo: usize) -> (r: bool)
    requires
        lo <= s@.len(),
    ensures
        r == decimal_number(s@.skip(lo as int)),
{
    let hi = s.len();
    let ghost b = s@.skip(lo as int);
    assert(b =~= s@.subrange(lo as int, hi as int));
    let k = find_either(s, lo, hi, 'e', 'E');
    if k == hi {
        let r = mantissa_in(s, lo, hi);
        proof {
            if !r {
                assert forall|e: int| 0 <= e < b.len() implies !(b[e] == 'e' || b[e] == 'E') by {
                    assert(b[e] == s@[lo + e]);
                }
            }
        }
        return r;
    }
    let r = mantissa_in(s, lo, k) && exponent_in(s, k + 1, hi);
    proof {
        let kk = (k - lo) as int;
        assert(b.take(kk) =~= s@.subrange(lo as int, k as int));
        assert(b.skip(kk + 1) =~= s@.subrange(k + 1, hi as int));
        assert(b[kk] == s@[k as int]);
        assert forall|m: Seq<char>| #[trigger] mantissa(m) implies forall|e: int|
            0 <= e < m.len() ==> m[e] != 'e' && m[e] != 'E' by {
            if all_digits(m) {
                assert forall|e: int| 0 <= e < m.len() implies m[e] != 'e' && m[e] != 'E' by {
                    assert(is_digit(m[e]));
                }
            } else {
                let d = choose|d: int|
                    0 <= d < m.len() && m[d] == '.' && (d == 0 || all_digits(m.take(d))) && (d + 1
                        == m.len() || all_digits(m.skip(d + 1))) && m.len() >= 2;
                assert forall|e: int| 0 <= e < m.len() implies m[e] != 'e' && m[e] != 'E' by {
                    if e < d {
                        assert(m.take(d)[e] == m[e]);
                        assert(is_digit(m.take(d)[e]));
                    } else if e > d {
                        assert(m.skip(d + 1)[e - d - 1] == m[e]);
                        assert(is_digit(m.skip(d + 1)[e - d - 1]));
                    }
                }
            }
        }
        assert(!mantissa(b)) by {
            if mantissa(b) {
                assert(b[kk] == 'e' || b[kk] == 'E');
            }
        }
        assert forall|e: int|
            0 <= e < b.len() && (b[e] == 'e' || b[e] == 'E') && mantissa(b.take(e)) && exponent(
                b.skip(e + 1),
            ) implies e == kk by {
            if e > kk {
                assert(b.take(e)[kk] == b[kk]);
            } else if e < kk {
                assert(b[e] == s@[lo + e]);
            }
        }
    }
    r
}

/// Whether `s` is text `f64::from_str` accepts.
pub fn is_float_text(s: &str) -> (r: bool)
    ensures
        r == float_syntax(s@),
{
    let cs = str_chars(s);
    let signed = cs.len() > 0 && (cs[0] == '+' || cs[0] == '-');
    let lo: usize = if signed { 1 } else { 0 };
    let ghost body = if signed { s@.drop_first() } else { s@ };
    assert(s@.skip(lo as int) =~= body);
    let rest = {
        let mut v: Vec<char> = Vec::new();
        let mut i = lo;
        while i < cs.len()
            invariant
                lo <= i <= cs@.len(),
                v@ == cs@.subrange(lo as int, i as int),
            decreases cs.len() - i,
        {
            v.push(cs[i]);
            assert(cs@.subrange(lo as int, i + 1) =~= cs@.subrange(lo as int, i as int).push(cs@[i as int]));
            i = i + 1;
        }
        v
    };
    assert(rest@ =~= body);
    let low = ascii_lower_chars(&rest);
    let inf = str_chars("inf");
    let infinity = str_chars("infinity");
    let nan = str_chars("nan");
    if chars_eq(&low, &inf) || chars_eq(&low, &infinity) || chars_eq(&low, &nan) {
        return true;
    }
    decimal_number_in(&cs, lo)
}

// ---------------------------------------------------------------------------
// Checking values
// ---------------------------------------------------------------------------

/// Whether `input` is a value a flag of type `t` accepts.
pub open spec fn accepts(t: FlagType, input: Seq<char>) -> bool {
    match t {
        FlagType::String | FlagType::StringSlice => true,
        FlagType::Bool => bool_word(input) is Some,
        FlagType::Int => parse_i64_spec(input) is Some,
        FlagType::Float => float_syntax(input),
    }
}

/// The message for a value a flag of type `t` does not accept.
pub open spec fn rejection_message(t: FlagType, input: Seq<char>) -> Seq<char> {
    match t {
        FlagType::Bool => "Invalid boolean value: "@ + input,
        FlagType::Int => "Invalid integer value: "@ + input,
        _ => "Invalid float value: "@ + input,
    }
}

/// Checks `input` against the flag type `t`: `Ok` when the type accepts
/// it, otherwise a flag parsing error saying which kind of value was
/// expected.
pub fn check_value(t: FlagType, input: &str) -> (r: Result<()>)
    ensures
        accepts(t, input@) <==> r is Ok,
        r matches Err(e) ==> e matches Error::FlagParsing { message: m, flag: None, suggestions: s }
            && m@ == rejection_message(t, input@) && s@.len() == 0,
{
    let ok = match t {
        FlagType::String | FlagType::StringSlice => true,
        FlagType::Bool => parse_bool_word(input).is_some(),
        FlagType::Int => parse_i64(input).is_some(),
        FlagType::Float => is_float_text(input),
    };
    if ok {
        return Ok(());
    }
    let mut m: Vec<char> = Vec::new();
    match t {
        FlagType::Bool => push_str_chars(&mut m, "Invalid boolean value: "),
        FlagType::Int => push_str_chars(&mut m, "Invalid integer value: "),
        _ => push_str_chars(&mut m, "Invalid float value: "),
    }
    push_str_chars(&mut m, input);
    let text = string_from_chars(&m);
    Err(Error::flag_parsing(text.as_str()))
}

} // verus!
