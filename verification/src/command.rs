//! Commands: a tree of named commands with flags, run actions and
//! completion sources, and how command lines are dispatched through it.

use vstd::prelude::*;
use crate::completion::CompletionResult;
use crate::context::{keyed_map, lemma_keyed_push, Context, FlagMap};
use crate::error::{Error, Result};
use crate::flag::{FlagSpec, FlagType};
use crate::parse_optimized::{
    find_named, find_named_in, find_short, find_short_in, first_pos, flag_key, flag_keys,
    is_long, is_separator, starts_dash, FlagKey, Parsed,
};
use crate::completion_format::{
    format_checked, formatted_as, formatted_parts, shell_format, CompletionFormat,
};
use crate::suggestion::{char_views, insert_lex_unique, lex_strictly_sorted};
use crate::text::{
    chars_eq, is_prefix, str_chars, str_eq, string_from_chars, string_views, to_owned_string,
    IntoText,
};

verus! {

// ---------------------------------------------------------------------------
// Parsing a command's flags
// ---------------------------------------------------------------------------

/// `a` with every leading `--` removed.
pub open spec fn trim_dashes(a: Seq<char>) -> Seq<char>
    decreases a.len(),
{
    if a.len() >= 2 && a[0] == '-' && a[1] == '-' {
        trim_dashes(a.skip(2))
    } else {
        a
    }
}

/// Reads the short-flag cluster `cs` (the characters after `-` of
/// argument `i`) from position `idx` against the known flags. Gives the
/// settings so far, the text handed on as an argument when an unknown flag
/// letter is met (`-` and the rest of the cluster), and whether the next
/// argument was taken as a value.
pub open spec fn plain_cluster(
    args: Seq<Seq<char>>,
    i: int,
    cs: Seq<char>,
    idx: int,
    known: Seq<FlagKey>,
    sets: Seq<(Seq<char>, Seq<char>)>,
) -> (Seq<(Seq<char>, Seq<char>)>, Option<Seq<char>>, bool)
    decreases cs.len() - idx,
{
    if idx < 0 || idx >= cs.len() {
        (sets, None, false)
    } else if cs[idx] == 'h' {
        plain_cluster(args, i, cs, idx + 1, known, sets.push(("help"@, "true"@)))
    } else {
        match find_short(known, cs[idx]) {
            Some(f) => if idx == cs.len() - 1 && i + 1 < args.len() && !starts_dash(args[i + 1]) {
                (sets.push((f.0, args[i + 1])), None, true)
            } else {
                plain_cluster(args, i, cs, idx + 1, known, sets.push((f.0, "true"@)))
            },
            None => (sets, Some(seq!['-'] + cs.skip(idx)), false),
        }
    }
}

/// Parses a command line from position `i` against the known flags (the
/// command's own, then its ancestors'), given the settings and leftovers so
/// far. `--` ends flag parsing; `--help` and `-h` set `help`;
/// `--name=value` sets `name`; a known flag takes the next argument as its
/// value unless that starts with `-`, and is `true` otherwise. Unknown
/// flags are handed on as arguments.
pub open spec fn plain_parse(
    args: Seq<Seq<char>>,
    i: int,
    known: Seq<FlagKey>,
    sets: Seq<(Seq<char>, Seq<char>)>,
    rest: Seq<Seq<char>>,
) -> Parsed
    decreases args.len() - i,
{
    if i < 0 || i >= args.len() {
        (sets, rest)
    } else {
        let a = args[i];
        if is_separator(a) {
            (sets, rest + args.skip(i + 1))
        } else if is_long(a) {
            let body = trim_dashes(a);
            if body == "help"@ {
                plain_parse(args, i + 1, known, sets.push(("help"@, "true"@)), rest)
            } else {
                match first_pos(body, '=') {
                    Some(k) => plain_parse(
                        args,
                        i + 1,
                        known,
                        sets.push((body.take(k), body.skip(k + 1))),
                        rest,
                    ),
                    None => match find_named(known, body) {
                        Some(_) => if i + 1 < args.len() && !starts_dash(args[i + 1]) {
                            plain_parse(args, i + 2, known, sets.push((body, args[i + 1])), rest)
                        } else {
                            plain_parse(args, i + 1, known, sets.push((body, "true"@)), rest)
                        },
                        None => plain_parse(args, i + 1, known, sets, rest.push(a)),
                    },
                }
            }
        } else if a.len() > 1 && a[0] == '-' {
            let (sets2, handed, took) = plain_cluster(args, i, a.drop_first(), 0, known, sets);
            plain_parse(
                args,
                if took && i + 2 <= args.len() {
                    i + 2
                } else {
                    i + 1
                },
                known,
                sets2,
                match handed {
                    Some(t) => rest.push(t),
                    None => rest,
                },
            )
        } else {
            plain_parse(args, i + 1, known, sets, rest.push(a))
        }
    }
}

fn chars_from(s: &[char], lo: usize) -> (r: Vec<char>)
    requires
        lo <= s@.len(),
    ensures
        r@ == s@.skip(lo as int),
{
    let mut v: Vec<char> = Vec::new();
    let mut i = lo;
    while i < s.len()
        invariant
            lo <= i <= s@.len(),
            v@ == s@.subrange(lo as int, i as int),
        decreases s.len() - i,
    {
        v.push(s[i]);
        assert(s@.subrange(lo as int, i + 1) =~= s@.subrange(lo as int, i as int).push(s@[i as int]));
        i = i + 1;
    }
    assert(s@.subrange(lo as int, i as int) =~= s@.skip(lo as int));
    v
}

fn trim_dashes_exec(a: &[char]) -> (r: Vec<char>)
    ensures
        r@ == trim_dashes(a@),
{
    let mut k: usize = 0;
    assert(a@.skip(0) =~= a@);
    while a.len() >= 2 && k <= a.len() - 2 && a[k] == '-' && a[k + 1] == '-'
        invariant
            k <= a@.len(),
            trim_dashes(a@) == trim_dashes(a@.skip(k as int)),
        decreases a.len() - k,
    {
        assert(a@.skip(k as int).skip(2) =~= a@.skip(k + 2));
        assert(a@.skip(k as int)[0] == a@[k as int]);
        assert(a@.skip(k as int)[1] == a@[k + 1]);
        k = k + 2;
    }
    proof {
        if k + 2 <= a@.len() {
            assert(a@.skip(k as int)[0] == a@[k as int]);
            assert(a@.skip(k as int)[1] == a@[k + 1]);
        }
    }
    chars_from(a, k)
}

fn starts_with_dash(s: &str) -> (r: bool)
    ensures
        r == starts_dash(s@),
{
    let c = str_chars(s);
    c.len() > 0 && c[0] == '-'
}

/// Parses `args` against the known flags (see [`plain_parse`]): the flag
/// values by name, and the arguments left over.
pub fn parse_command_flags(args: &[String], known: &[FlagSpec]) -> (r: (FlagMap, Vec<String>))
    ensures
        ({
            let (sets, rest) = plain_parse(
                string_views(args@),
                0,
                flag_keys(known@),
                Seq::empty(),
                Seq::empty(),
            );
            r.0.spec_map() == keyed_map(sets) && string_views(r.1@) == rest
        }),
{
    let ghost av = string_views(args@);
    let ghost kk = flag_keys(known@);
    let mut parsed = FlagMap::new();
    let mut remaining: Vec<String> = Vec::new();
    let ghost mut sets: Seq<(Seq<char>, Seq<char>)> = Seq::empty();
    let mut i: usize = 0;
    assert(keyed_map(sets) =~= parsed.spec_map());
    assert(string_views(remaining@) =~= Seq::<Seq<char>>::empty());
    while i < args.len()
        invariant
            i <= args@.len(),
            av == string_views(args@),
            kk == flag_keys(known@),
            parsed.spec_map() == keyed_map(sets),
            plain_parse(av, 0, kk, Seq::empty(), Seq::empty()) == plain_parse(
                av,
                i as int,
                kk,
                sets,
                string_views(remaining@),
            ),
        decreases args.len() - i,
    {
        let a = str_chars(args[i].as_str());
        assert(av[i as int] == a@);
        let ghost rest0 = string_views(remaining@);
        if a.len() == 2 && a[0] == '-' && a[1] == '-' {
            let mut j = i + 1;
            while j < args.len()
                invariant
                    i + 1 <= j <= args@.len(),
                    av == string_views(args@),
                    string_views(remaining@) == rest0 + av.subrange(i + 1, j as int),
                decreases args.len() - j,
            {
                let ghost before = string_views(remaining@);
                remaining.push(args[j].clone());
                assert(string_views(remaining@) =~= before.push(av[j as int]));
                assert(av.subrange(i + 1, j + 1) =~= av.subrange(i + 1, j as int).push(av[j as int]));
                j = j + 1;
            }
            assert(av.subrange(i + 1, j as int) =~= av.skip(i + 1));
            return (parsed, remaining);
        } else if a.len() >= 2 && a[0] == '-' && a[1] == '-' {
            let body = trim_dashes_exec(&a);
            let help = str_chars("help");
            if chars_eq(&body, &help) {
                parsed.insert(to_owned_string("help"), to_owned_string("true"));
                proof {
                    lemma_keyed_push(sets, ("help"@, "true"@));
                    sets = sets.push(("help"@, "true"@));
                }
                i = i + 1;
            } else {
                match crate::parse_optimized::first_eq(&body) {
                    Some(k) => {
                        let blen = body.len();
                        assert(k < blen);
                        let name = crate::parse_optimized::sub_chars(&body, 0, k);
                        let value = crate::parse_optimized::sub_chars(&body, k + 1, blen);
                        assert(name@ =~= body@.take(k as int));
                        assert(value@ =~= body@.skip(k + 1));
                        parsed.insert(string_from_chars(&name), string_from_chars(&value));
                        proof {
                            lemma_keyed_push(sets, (name@, value@));
                            sets = sets.push((name@, value@));
                        }
                        i = i + 1;
                    },
                    None => {
                        match find_named_in(known, &body) {
                            Some(_) => {
                                if i + 1 < args.len() && !starts_with_dash(args[i + 1].as_str()) {
                                    parsed.insert(string_from_chars(&body), args[i + 1].clone());
                                    proof {
                                        lemma_keyed_push(sets, (body@, av[i + 1]));
                                        sets = sets.push((body@, av[i + 1]));
                                    }
                                    i = i + 2;
                                } else {
                                    parsed.insert(string_from_chars(&body), to_owned_string("true"));
                                    proof {
                                        lemma_keyed_push(sets, (body@, "true"@));
                                        sets = sets.push((body@, "true"@));
                                    }
                                    i = i + 1;
                                }
                            },
                            None => {
                                remaining.push(args[i].clone());
                                assert(string_views(remaining@) =~= rest0.push(a@));
                                i = i + 1;
                            },
                        }
                    },
                }
            }
        } else if a.len() > 1 && a[0] == '-' {
            let cs = chars_from(&a, 1);
            assert(cs@ =~= a@.drop_first());
            let ghost sets0 = sets;
            let mut idx: usize = 0;
            let mut handed: Option<Vec<char>> = None;
            let mut took_next = false;
            let has_next = i + 1 < args.len();
            let next_i = i + 1;
            while idx < cs.len()
                invariant_except_break
                    handed is None && !took_next,
                    plain_cluster(av, i as int, cs@, 0, kk, sets0) == plain_cluster(
                        av,
                        i as int,
                        cs@,
                        idx as int,
                        kk,
                        sets,
                    ),
                invariant
                    idx <= cs@.len(),
                    i < args@.len(),
                    av == string_views(args@),
                    kk == flag_keys(known@),
                    parsed.spec_map() == keyed_map(sets),
                    has_next == (i + 1 < args@.len()),
                    next_i == i + 1,
                ensures
                    parsed.spec_map() == keyed_map(sets),
                    plain_cluster(av, i as int, cs@, 0, kk, sets0) == (
                        sets,
                        match handed {
                            Some(h) => Some(h@),
                            None => None,
                        },
                        took_next,
                    ),
                    took_next ==> i + 1 < args@.len(),
                decreases cs.len() - idx,
            {
                let ch = cs[idx];
                if ch == 'h' {
                    parsed.insert(to_owned_string("help"), to_owned_string("true"));
                    proof {
                        lemma_keyed_push(sets, ("help"@, "true"@));
                        sets = sets.push(("help"@, "true"@));
                    }
                    idx = idx + 1;
                } else {
                    match find_short_in(known, ch) {
                        Some(fi) => {
                            let last = idx + 1 == cs.len();
                            if last && has_next && !starts_with_dash(args[next_i].as_str()) {
                                assert(av[i + 1] == args@[i + 1]@);
                                parsed.insert(known[fi].name.clone(), args[next_i].clone());
                                proof {
                                    lemma_keyed_push(sets, (known@[fi as int].name@, av[i + 1]));
                                    sets = sets.push((known@[fi as int].name@, av[i + 1]));
                                }
                                took_next = true;
                                break;
                            } else {
                                parsed.insert(known[fi].name.clone(), to_owned_string("true"));
                                proof {
                                    lemma_keyed_push(sets, (known@[fi as int].name@, "true"@));
                                    sets = sets.push((known@[fi as int].name@, "true"@));
                                }
                                idx = idx + 1;
                            }
                        },
                        None => {
                            let mut t: Vec<char> = Vec::new();
                            t.push('-');
                            let tail = chars_from(&cs, idx);
                            crate::text::push_slice(&mut t, &tail);
                            assert(t@ =~= seq!['-'] + cs@.skip(idx as int));
                            handed = Some(t);
                            break;
                        },
                    }
                }
            }
            match handed {
                Some(t) => {
                    remaining.push(string_from_chars(&t));
                    assert(string_views(remaining@) =~= rest0.push(t@));
                },
                None => {},
            }
            i = if took_next { i + 2 } else { i + 1 };
        } else {
            remaining.push(args[i].clone());
            assert(string_views(remaining@) =~= rest0.push(a@));
            i = i + 1;
        }
    }
    (parsed, remaining)
}

/// `b` begins with the elements of `a`.
pub open spec fn begins_with<T>(b: Seq<T>, a: Seq<T>) -> bool {
    b.len() >= a.len() && forall|k: int| 0 <= k < a.len() ==> b[k] == a[k]
}

proof fn lemma_cluster_keeps(
    args: Seq<Seq<char>>,
    i: int,
    cs: Seq<char>,
    idx: int,
    known: Seq<FlagKey>,
    sets: Seq<(Seq<char>, Seq<char>)>,
)
    ensures
        begins_with(plain_cluster(args, i, cs, idx, known, sets).0, sets),
    decreases cs.len() - idx,
{
    if idx < 0 || idx >= cs.len() {
    } else if cs[idx] == 'h' {
        lemma_cluster_keeps(args, i, cs, idx + 1, known, sets.push(("help"@, "true"@)));
    } else {
        match find_short(known, cs[idx]) {
            Some(f) => if idx == cs.len() - 1 && i + 1 < args.len() && !starts_dash(args[i + 1]) {
            } else {
                lemma_cluster_keeps(args, i, cs, idx + 1, known, sets.push((f.0, "true"@)));
            },
            None => {},
        }
    }
}

/// Parsing further only adds settings after those already made.
proof fn lemma_parse_keeps(
    args: Seq<Seq<char>>,
    i: int,
    known: Seq<FlagKey>,
    sets: Seq<(Seq<char>, Seq<char>)>,
    rest: Seq<Seq<char>>,
)
    ensures
        begins_with(plain_parse(args, i, known, sets, rest).0, sets),
    decreases args.len() - i,
{
    if i < 0 || i >= args.len() {
    } else {
        let a = args[i];
        if is_separator(a) {
        } else if is_long(a) {
            let body = trim_dashes(a);
            if body == "help"@ {
                lemma_parse_keeps(args, i + 1, known, sets.push(("help"@, "true"@)), rest);
            } else {
                match first_pos(body, '=') {
                    Some(k) => lemma_parse_keeps(
                        args,
                        i + 1,
                        known,
                        sets.push((body.take(k), body.skip(k + 1))),
                        rest,
                    ),
                    None => match find_named(known, body) {
                        Some(_) => if i + 1 < args.len() && !starts_dash(args[i + 1]) {
                            lemma_parse_keeps(args, i + 2, known, sets.push((body, args[i + 1])), rest);
                        } else {
                            lemma_parse_keeps(args, i + 1, known, sets.push((body, "true"@)), rest);
                        },
                        None => lemma_parse_keeps(args, i + 1, known, sets, rest.push(a)),
                    },
                }
            }
        } else if a.len() > 1 && a[0] == '-' {
            let (sets2, handed, took) = plain_cluster(args, i, a.drop_first(), 0, known, sets);
            lemma_cluster_keeps(args, i, a.drop_first(), 0, known, sets);
            lemma_parse_keeps(
                args,
                if took && i + 2 <= args.len() {
                    i + 2
                } else {
                    i + 1
                },
                known,
                sets2,
                match handed {
                    Some(t) => rest.push(t),
                    None => rest,
                },
            );
        } else {
            lemma_parse_keeps(args, i + 1, known, sets, rest.push(a));
        }
    }
}

proof fn lemma_no_equals(s: Seq<char>)
    requires
        forall|k: int| 0 <= k < s.len() ==> s[k] != '=',
    ensures
        first_pos(s, '=') is None,
    decreases s.len(),
{
    if s.len() > 0 {
        lemma_no_equals(s.drop_first());
    }
}

proof fn lemma_named_found(t: Seq<FlagKey>, j: int)
    requires
        0 <= j < t.len(),
    ensures
        find_named(t, t[j].0) is Some,
    decreases t.len(),
{
    if t[0].0 != t[j].0 {
        lemma_named_found(t.drop_first(), j - 1);
    }
}

/// A flag the command knows, given as `--name` with no value after it (as
/// the last word, or followed by a word starting with `-`), is set to
/// `true`: it is the first setting the parse makes, and a line holding
/// only that word sets that flag alone, to `true`.
pub proof fn lemma_known_flag_without_value_is_true(
    known: Seq<FlagKey>,
    j: int,
    tail: Seq<Seq<char>>,
)
    requires
        0 <= j < known.len(),
        known[j].0.len() > 0,
        !(known[j].0.len() >= 2 && known[j].0[0] == '-' && known[j].0[1] == '-'),
        forall|k: int| 0 <= k < known[j].0.len() ==> known[j].0[k] != '=',
        tail.len() == 0 || (tail[0].len() > 0 && tail[0][0] == '-'),
    ensures
        ({
            let sets = plain_parse(
                seq![seq!['-', '-'] + known[j].0] + tail,
                0,
                known,
                Seq::empty(),
                Seq::empty(),
            ).0;
            sets.len() > 0 && sets[0] == (known[j].0, "true"@)
        }),
        keyed_map(
            plain_parse(seq![seq!['-', '-'] + known[j].0], 0, known, Seq::empty(), Seq::empty()).0,
        ) == map![known[j].0 => "true"@],
{
    let f = known[j].0;
    let a = seq!['-', '-'] + f;
    assert(a.skip(2) =~= f);
    assert(trim_dashes(f) == f);
    assert(trim_dashes(a) == f);
    lemma_no_equals(f);
    lemma_named_found(known, j);
    let one = Seq::<(Seq<char>, Seq<char>)>::empty().push((f, "true"@));
    let args = seq![a] + tail;
    assert(args[0] == a);
    assert(args.len() == tail.len() + 1);
    if tail.len() > 0 {
        assert(args[1] == tail[0]);
    }
    if f == "help"@ {
        assert(plain_parse(args, 0, known, Seq::empty(), Seq::empty()) == plain_parse(
            args,
            1,
            known,
            one,
            Seq::empty(),
        ));
    } else {
        assert(plain_parse(args, 0, known, Seq::empty(), Seq::empty()) == plain_parse(
            args,
            1,
            known,
            one,
            Seq::empty(),
        ));
    }
    lemma_parse_keeps(args, 1, known, one, Seq::empty());
    let only = seq![a];
    if f == "help"@ {
        assert(plain_parse(only, 0, known, Seq::empty(), Seq::empty()) == plain_parse(
            only,
            1,
            known,
            one,
            Seq::empty(),
        ));
    } else {
        assert(plain_parse(only, 0, known, Seq::empty(), Seq::empty()) == plain_parse(
            only,
            1,
            known,
            one,
            Seq::empty(),
        ));
    }
    lemma_keyed_push(Seq::<(Seq<char>, Seq<char>)>::empty(), (f, "true"@));
    assert(keyed_map(Seq::<(Seq<char>, Seq<char>)>::empty()) =~= Map::<Seq<char>, Seq<char>>::empty());
    assert(keyed_map(one) =~= map![f => "true"@]);
}



// ---------------------------------------------------------------------------
// User code: run actions and completion sources
// ---------------------------------------------------------------------------

/// What a command does when it runs.
pub trait RunAction: Send + Sync {
    /// Whether `r` is a possible result of running on the context `before`.
    spec fn may_return(&self, before: Context, r: Result<()>) -> bool;

    fn run(&self, ctx: &mut Context) -> (r: Result<()>)
        ensures
            self.may_return(*old(ctx), r),
    ;
}

/// `f` accepts every context.
pub open spec fn run_total<F: Fn(&mut Context) -> Result<()>>(f: F) -> bool {
    forall|c: &mut Context| call_requires(f, (c,))
}

/// Whether `r` is a possible result of the closure `f` on the context
/// `before`.
pub open spec fn run_returns<F: Fn(&mut Context) -> Result<()>>(f: F, before: Context, r: Result<()>) -> bool {
    exists|c: &mut Context| *c == before && call_ensures(f, (c,), r)
}

/// A run-action closure that accepts every context.
pub struct RunFn<F: Fn(&mut Context) -> Result<()>> {
    f: F,
}

impl<F: Fn(&mut Context) -> Result<()>> RunFn<F> {
    #[verifier::type_invariant]
    spec fn total(self) -> bool {
        run_total(self.f)
    }

    /// The closure.
    pub closed spec fn func(self) -> F {
        self.f
    }

    /// Wraps `f`, which must accept every context.
    pub fn new(f: F) -> (r: RunFn<F>)
        requires
            run_total(f),
        ensures
            r.func() == f,
    {
        RunFn { f }
    }
}

impl<F: Fn(&mut Context) -> Result<()> + Send + Sync> RunAction for RunFn<F> {
    open spec fn may_return(&self, before: Context, r: Result<()>) -> bool {
        run_returns(self.func(), before, r)
    }

    fn run(&self, ctx: &mut Context) -> (r: Result<()>) {
        proof {
            use_type_invariant(self);
        }
        (self.f)(ctx)
    }
}

/// Where completions for arguments or flag values come from.
pub trait CompletionSource: Send + Sync {
    /// Whether `r` is a possible answer for `prefix` in `ctx`.
    spec fn admits(&self, ctx: Context, prefix: Seq<char>, r: Result<CompletionResult>) -> bool;

    fn complete(&self, ctx: &Context, prefix: &str) -> (r: Result<CompletionResult>)
        ensures
            self.admits(*ctx, prefix@, r),
    ;
}

/// `f` accepts every context and prefix.
pub open spec fn source_total<F: Fn(&Context, &str) -> Result<CompletionResult>>(f: F) -> bool {
    forall|c: &Context, p: &str| call_requires(f, (c, p))
}

/// Whether `r` is a possible answer of the closure `f` for `prefix` in
/// `ctx`.
pub open spec fn source_admits<F: Fn(&Context, &str) -> Result<CompletionResult>>(
    f: F,
    ctx: Context,
    prefix: Seq<char>,
    r: Result<CompletionResult>,
) -> bool {
    exists|c: &Context, p: &str| *c == ctx && p@ == prefix && call_ensures(f, (c, p), r)
}

/// A completion closure that accepts every context and prefix.
pub struct SourceFn<F: Fn(&Context, &str) -> Result<CompletionResult>> {
    f: F,
}

impl<F: Fn(&Context, &str) -> Result<CompletionResult>> SourceFn<F> {
    #[verifier::type_invariant]
    spec fn total(self) -> bool {
        source_total(self.f)
    }

    /// The closure.
    pub closed spec fn func(self) -> F {
        self.f
    }

    /// Wraps `f`, which must accept every context and prefix.
    pub fn new(f: F) -> (r: SourceFn<F>)
        requires
            source_total(f),
        ensures
            r.func() == f,
    {
        SourceFn { f }
    }
}

impl<F: Fn(&Context, &str) -> Result<CompletionResult> + Send + Sync> CompletionSource for SourceFn<F> {
    open spec fn admits(&self, ctx: Context, prefix: Seq<char>, r: Result<CompletionResult>) -> bool {
        source_admits(self.func(), ctx, prefix, r)
    }

    fn complete(&self, ctx: &Context, prefix: &str) -> (r: Result<CompletionResult>) {
        proof {
            use_type_invariant(self);
        }
        (self.f)(ctx, prefix)
    }
}

// ---------------------------------------------------------------------------
// Tables by name
// ---------------------------------------------------------------------------

/// The position of the first flag named `name`.
pub open spec fn flag_index(t: Seq<FlagSpec>, name: Seq<char>) -> Option<int>
    decreases t.len(),
{
    if t.len() == 0 {
        None
    } else if t[0].name@ == name {
        Some(0)
    } else {
        match flag_index(t.drop_first(), name) {
            Some(k) => Some(k + 1),
            None => None,
        }
    }
}

/// `t` with `f` in place of the flag of the same name, or with `f` added.
pub open spec fn put_flag(t: Seq<FlagSpec>, f: FlagSpec) -> Seq<FlagSpec> {
    match flag_index(t, f.name@) {
        Some(k) => t.update(k, f),
        None => t.push(f),
    }
}

proof fn lemma_flag_index_bounds(t: Seq<FlagSpec>, name: Seq<char>)
    ensures
        flag_index(t, name) matches Some(k) ==> 0 <= k < t.len() && t[k].name@ == name,
    decreases t.len(),
{
    if t.len() > 0 && t[0].name@ != name {
        lemma_flag_index_bounds(t.drop_first(), name);
    }
}

fn flag_index_exec(t: &Vec<FlagSpec>, name: &str) -> (r: Option<usize>)
    ensures
        r matches Some(k) ==> k < t@.len() && flag_index(t@, name@) == Some(k as int),
        r is None ==> flag_index(t@, name@) is None,
{
    proof {
        lemma_flag_index_bounds(t@, name@);
    }
    let mut i: usize = 0;
    assert(t@.skip(0) =~= t@);
    while i < t.len()
        invariant
            i <= t@.len(),
            flag_index(t@, name@) == match flag_index(t@.skip(i as int), name@) {
                Some(k) => Some(k + i),
                None => None,
            },
        decreases t.len() - i,
    {
        assert(t@.skip(i as int)[0] == t@[i as int]);
        if str_eq(t[i].name.as_str(), name) {
            return Some(i);
        }
        assert(t@.skip(i as int).drop_first() =~= t@.skip(i + 1));
        i = i + 1;
    }
    None
}

// ---------------------------------------------------------------------------
// Commands
// ---------------------------------------------------------------------------

/// A command: a name with aliases and descriptions, subcommands, flags,
/// the action it runs and where its completions come from.
pub struct Command {
    name: String,
    aliases: Vec<String>,
    short: String,
    long: String,
    subcommands: Vec<Command>,
    flags: Vec<FlagSpec>,
    run: Option<Box<dyn RunAction>>,
    arg_completions: Option<Box<dyn CompletionSource>>,
    flag_completions: Vec<FlagCompletion>,
}

/// The completion source for the values of one flag.
struct FlagCompletion {
    flag: String,
    source: std::sync::Arc<Box<dyn CompletionSource>>,
}

/// The position of the first command named `name`.
pub open spec fn command_index(t: Seq<Command>, name: Seq<char>) -> Option<int>
    decreases t.len(),
{
    if t.len() == 0 {
        None
    } else if t[0].spec_name() == name {
        Some(0)
    } else {
        match command_index(t.drop_first(), name) {
            Some(k) => Some(k + 1),
            None => None,
        }
    }
}

/// The position of the first command with alias `name`.
pub open spec fn alias_index(t: Seq<Command>, name: Seq<char>) -> Option<int>
    decreases t.len(),
{
    if t.len() == 0 {
        None
    } else if t[0].spec_aliases().contains(name) {
        Some(0)
    } else {
        match alias_index(t.drop_first(), name) {
            Some(k) => Some(k + 1),
            None => None,
        }
    }
}

/// The subcommand that `name` selects: the one of that name, else the
/// first with that alias.
pub open spec fn subcommand_index(t: Seq<Command>, name: Seq<char>) -> Option<int> {
    match command_index(t, name) {
        Some(k) => Some(k),
        None => alias_index(t, name),
    }
}

/// `t` with `c` in place of the command of the same name, or with `c`
/// added.
pub open spec fn put_command(t: Seq<Command>, c: Command) -> Seq<Command> {
    match command_index(t, c.spec_name()) {
        Some(k) => t.update(k, c),
        None => t.push(c),
    }
}

proof fn lemma_command_index_bounds(t: Seq<Command>, name: Seq<char>)
    ensures
        command_index(t, name) matches Some(k) ==> 0 <= k < t.len() && t[k].spec_name() == name,
        alias_index(t, name) matches Some(k) ==> 0 <= k < t.len() && t[k].spec_aliases().contains(
            name,
        ),
    decreases t.len(),
{
    if t.len() > 0 {
        lemma_command_index_bounds(t.drop_first(), name);
    }
}

proof fn lemma_command_index_first(t: Seq<Command>, name: Seq<char>, k: int)
    requires
        0 <= k < t.len(),
        t[k].spec_name() == name,
        forall|j: int| 0 <= j < k ==> (#[trigger] t[j]).spec_name() != name,
    ensures
        command_index(t, name) == Some(k),
    decreases k,
{
    if k > 0 {
        assert(t[0].spec_name() != name);
        assert forall|j: int| 0 <= j < k - 1 implies (#[trigger] t.drop_first()[j]).spec_name() != name by {
            assert(t.drop_first()[j] == t[j + 1]);
        }
        lemma_command_index_first(t.drop_first(), name, k - 1);
    }
}

proof fn lemma_command_index_none(t: Seq<Command>, name: Seq<char>)
    ensures
        command_index(t, name) is None ==> forall|j: int| 0 <= j < t.len() ==> (#[trigger] t[j]).spec_name() != name,
        command_index(t, name) matches Some(k) ==> forall|j: int| 0 <= j < k ==> (#[trigger] t[j]).spec_name() != name,
    decreases t.len(),
{
    if t.len() > 0 {
        let rest = t.drop_first();
        lemma_command_index_none(rest, name);
        lemma_command_index_bounds(rest, name);
        if t[0].spec_name() != name {
            match command_index(rest, name) {
                Some(k) => {
                    assert forall|j: int| 0 <= j < k + 1 implies (#[trigger] t[j]).spec_name() != name by {
                        if j > 0 {
                            assert(t[j] == rest[j - 1]);
                        }
                    }
                },
                None => {
                    assert forall|j: int| 0 <= j < t.len() implies (#[trigger] t[j]).spec_name() != name by {
                        if j > 0 {
                            assert(t[j] == rest[j - 1]);
                        }
                    }
                },
            }
        }
    }
}

/// A command added to a list of subcommands (in place of one of the same
/// name, or at the end) is the one its name then selects.
pub proof fn lemma_added_command_is_found(t: Seq<Command>, c: Command)
    ensures
        subcommand_index(put_command(t, c), c.spec_name()) matches Some(k) && 0 <= k < put_command(
            t,
            c,
        ).len() && put_command(t, c)[k] == c,
{
    let n = c.spec_name();
    lemma_command_index_bounds(t, n);
    lemma_command_index_none(t, n);
    let t2 = put_command(t, c);
    match command_index(t, n) {
        Some(k) => {
            assert forall|j: int| 0 <= j < k implies (#[trigger] t2[j]).spec_name() != n by {
                assert(t2[j] == t[j]);
            }
            lemma_command_index_first(t2, n, k);
        },
        None => {
            let k = t.len() as int;
            assert forall|j: int| 0 <= j < k implies (#[trigger] t2[j]).spec_name() != n by {
                assert(t2[j] == t[j]);
            }
            lemma_command_index_first(t2, n, k);
        },
    }
}

/// Whether `name` is one of `v`.
fn contains_text(v: &Vec<String>, name: &str) -> (r: bool)
    ensures
        r == string_views(v@).contains(name@),
{
    let mut a: usize = 0;
    while a < v.len()
        invariant
            a <= v@.len(),
            forall|m: int| 0 <= m < a ==> v@[m]@ != name@,
        decreases v.len() - a,
    {
        if str_eq(v[a].as_str(), name) {
            assert(string_views(v@)[a as int] == name@);
            return true;
        }
        a = a + 1;
    }
    assert forall|m: int| 0 <= m < string_views(v@).len() implies string_views(v@)[m] != name@ by {
        assert(string_views(v@)[m] == v@[m]@);
    }
    false
}

impl Command {
    /// The command's name.
    pub closed spec fn spec_name(&self) -> Seq<char> {
        self.name@
    }

    /// Its aliases.
    pub closed spec fn spec_aliases(&self) -> Seq<Seq<char>> {
        string_views(self.aliases@)
    }

    /// Its one-line description.
    pub closed spec fn spec_short(&self) -> Seq<char> {
        self.short@
    }

    /// Its long description.
    pub closed spec fn spec_long(&self) -> Seq<char> {
        self.long@
    }

    /// Its subcommands.
    pub closed spec fn spec_subcommands(&self) -> Seq<Command> {
        self.subcommands@
    }

    /// Its own flags.
    pub closed spec fn spec_flags(&self) -> Seq<FlagSpec> {
        self.flags@
    }

    /// Whether it has a run action.
    pub closed spec fn has_run(&self) -> bool {
        self.run is Some
    }

    /// Whether it has an argument completion source.
    pub closed spec fn has_arg_completion(&self) -> bool {
        self.arg_completions is Some
    }

    /// The names of the flags it has completion sources for.
    pub closed spec fn completion_flag_names(&self) -> Seq<Seq<char>> {
        Seq::new(self.flag_completions@.len(), |i: int| self.flag_completions@[i].flag@)
    }

    /// A command named `name` with nothing else.
    pub fn new<S: IntoText>(name: S) -> (c: Command)
        ensures
            c.spec_name() == name.text(),
            c.spec_aliases().len() == 0,
            c.spec_short().len() == 0,
            c.spec_long().len() == 0,
            c.spec_subcommands().len() == 0,
            c.spec_flags().len() == 0,
            !c.has_run(),
            !c.has_arg_completion(),
            c.completion_flag_names().len() == 0,
    {
        let c = Command {
            name: name.into_string(),
            aliases: Vec::new(),
            short: String::new(),
            long: String::new(),
            subcommands: Vec::new(),
            flags: Vec::new(),
            run: None,
            arg_completions: None,
            flag_completions: Vec::new(),
        };
        assert(c.spec_aliases() =~= Seq::empty());
        assert(c.completion_flag_names() =~= Seq::empty());
        c
    }

    /// The name.
    pub fn name(&self) -> (r: &str)
        ensures
            r@ == self.spec_name(),
    {
        self.name.as_str()
    }

    /// The one-line description.
    pub fn short(&self) -> (r: &str)
        ensures
            r@ == self.spec_short(),
    {
        self.short.as_str()
    }

    /// The long description.
    pub fn long(&self) -> (r: &str)
        ensures
            r@ == self.spec_long(),
    {
        self.long.as_str()
    }

    /// The subcommands.
    pub fn subcommands(&self) -> (r: &Vec<Command>)
        ensures
            r@ == self.spec_subcommands(),
    {
        &self.subcommands
    }

    /// The command's own flags.
    pub fn flags(&self) -> (r: &Vec<FlagSpec>)
        ensures
            r@ == self.spec_flags(),
    {
        &self.flags
    }

    fn subcommand_index_exec(&self, name: &str) -> (r: Option<usize>)
        ensures
            r matches Some(k) ==> k < self.spec_subcommands().len() && subcommand_index(
                self.spec_subcommands(),
                name@,
            ) == Some(k as int),
            r is None ==> subcommand_index(self.spec_subcommands(), name@) is None,
    {
        proof {
            lemma_command_index_bounds(self.subcommands@, name@);
        }
        let t = &self.subcommands;
        let mut i: usize = 0;
        assert(t@.skip(0) =~= t@);
        while i < t.len()
            invariant
                i <= t@.len(),
                t@ == self.subcommands@,
                command_index(t@, name@) == match command_index(t@.skip(i as int), name@) {
                    Some(k) => Some(k + i),
                    None => None,
                },
            decreases t.len() - i,
        {
            assert(t@.skip(i as int)[0] == t@[i as int]);
            if str_eq(t[i].name.as_str(), name) {
                return Some(i);
            }
            assert(t@.skip(i as int).drop_first() =~= t@.skip(i + 1));
            i = i + 1;
        }
        let mut j: usize = 0;
        while j < t.len()
            invariant
                j <= t@.len(),
                t@ == self.subcommands@,
                command_index(t@, name@) is None,
                alias_index(t@, name@) == match alias_index(t@.skip(j as int), name@) {
                    Some(k) => Some(k + j),
                    None => None,
                },
            decreases t.len() - j,
        {
            assert(t@.skip(j as int)[0] == t@[j as int]);
            let found = contains_text(&t[j].aliases, name);
            if found {
                return Some(j);
            }
            assert(t@.skip(j as int).drop_first() =~= t@.skip(j + 1));
            j = j + 1;
        }
        None
    }

    /// The subcommand called `name`, or else the first with `name` among
    /// its aliases.
    pub fn find_subcommand(&self, name: &str) -> (r: Option<&Command>)
        ensures
            r is None <==> subcommand_index(self.spec_subcommands(), name@) is None,
            r matches Some(c) ==> subcommand_index(self.spec_subcommands(), name@) matches Some(k)
                && *c == self.spec_subcommands()[k],
    {
        match self.subcommand_index_exec(name) {
            Some(k) => Some(&self.subcommands[k]),
            None => None,
        }
    }

    /// The subcommand called `name` (or, failing that, the first with the
    /// alias `name`), to be changed in place.
    pub fn find_subcommand_mut(&mut self, name: &str) -> (r: Option<&mut Command>)
        ensures
            r is None <==> subcommand_index(old(self).spec_subcommands(), name@) is None,
            r is None ==> *final(self) == *old(self),
            r matches Some(c) ==> subcommand_index(old(self).spec_subcommands(), name@) matches Some(
                k,
            ) && *c == old(self).spec_subcommands()[k] && final(self).spec_subcommands()
                == old(self).spec_subcommands().update(k, *final(c)),
    {
        match self.subcommand_index_exec(name) {
            Some(k) => Some(&mut self.subcommands[k]),
            None => None,
        }
    }

    /// Adds `cmd` as a subcommand, replacing one of the same name.
    pub fn add_command(&mut self, cmd: Command)
        ensures
            keeps_actions(*old(self), *final(self)),
            final(self).spec_subcommands() == put_command(old(self).spec_subcommands(), cmd),
            final(self).spec_name() == old(self).spec_name(),
            final(self).spec_aliases() == old(self).spec_aliases(),
            final(self).spec_short() == old(self).spec_short(),
            final(self).spec_long() == old(self).spec_long(),
            final(self).spec_flags() == old(self).spec_flags(),
            final(self).has_run() == old(self).has_run(),
            final(self).has_arg_completion() == old(self).has_arg_completion(),
            final(self).completion_flag_names() == old(self).completion_flag_names(),
    {
        proof {
            lemma_command_index_bounds(self.subcommands@, cmd.name@);
        }
        let t = &self.subcommands;
        let mut i: usize = 0;
        assert(t@.skip(0) =~= t@);
        while i < t.len()
            invariant
                i <= t@.len(),
                t@ == self.subcommands@,
                command_index(t@, cmd.name@) == match command_index(t@.skip(i as int), cmd.name@) {
                    Some(k) => Some(k + i),
                    None => None,
                },
            ensures
                i <= t@.len(),
                i < t@.len() ==> command_index(t@, cmd.name@) == Some(i as int),
                i == t@.len() ==> command_index(t@, cmd.name@) is None,
            decreases t.len() - i,
        {
            assert(t@.skip(i as int)[0] == t@[i as int]);
            if str_eq(t[i].name.as_str(), cmd.name.as_str()) {
                break;
            }
            assert(t@.skip(i as int).drop_first() =~= t@.skip(i + 1));
            i = i + 1;
        }
        let ghost names = self.completion_flag_names();
        if i < self.subcommands.len() {
            self.subcommands.set(i, cmd);
        } else {
            self.subcommands.push(cmd);
        }
        assert(self.completion_flag_names() =~= names);
    }

    /// Sets where argument completions come from.
    pub fn set_arg_completion<F: Fn(&Context, &str) -> Result<CompletionResult> + Send + Sync + 'static>(
        &mut self,
        f: F,
    )
        requires
            source_total(f),
        ensures
            final(self).has_arg_completion(),
            forall|c: Context, p: Seq<char>, r: Result<CompletionResult>|
                #[trigger] final(self).arg_source()->0.admits(c, p, r) == source_admits(f, c, p, r),
            final(self).spec_name() == old(self).spec_name(),
            final(self).spec_aliases() == old(self).spec_aliases(),
            final(self).spec_short() == old(self).spec_short(),
            final(self).spec_long() == old(self).spec_long(),
            final(self).spec_subcommands() == old(self).spec_subcommands(),
            final(self).spec_flags() == old(self).spec_flags(),
            final(self).has_run() == old(self).has_run(),
            final(self).run_action() == old(self).run_action(),
            final(self).completion_flag_names() == old(self).completion_flag_names(),
            forall|x: Seq<char>| #[trigger] final(self).flag_source(x) == old(self).flag_source(x),
    {
        let w = SourceFn::new(f);
        assert(forall|c: Context, p: Seq<char>, r: Result<CompletionResult>|
            #[trigger] w.admits(c, p, r) == source_admits(f, c, p, r));
        let b: Box<dyn CompletionSource> = Box::new(w);
        assert(forall|c: Context, p: Seq<char>, r: Result<CompletionResult>|
            #[trigger] b.admits(c, p, r) == w.admits(c, p, r));
        let opt = Some(b);
        assert(forall|c: Context, p: Seq<char>, r: Result<CompletionResult>|
            #[trigger] opt->0.admits(c, p, r) == w.admits(c, p, r));
        self.arg_completions = opt;
        assert(forall|c: Context, p: Seq<char>, r: Result<CompletionResult>|
            #[trigger] self.arg_source()->0.admits(c, p, r) == w.admits(c, p, r));
    }

    /// Sets where completions of the values of flag `flag_name` come
    /// from, replacing an earlier source for that flag.
    pub fn set_flag_completion<
        S: IntoText,
        F: Fn(&Context, &str) -> Result<CompletionResult> + Send + Sync + 'static,
    >(&mut self, flag_name: S, f: F)
        requires
            source_total(f),
        ensures
            final(self).completion_flag_names().to_set() == old(self).completion_flag_names().to_set().insert(
                flag_name.text(),
            ),
            final(self).flag_source(flag_name.text()) is Some,
            forall|c: Context, p: Seq<char>, r: Result<CompletionResult>|
                #[trigger] final(self).flag_source(flag_name.text())->0.admits(c, p, r)
                    == source_admits(f, c, p, r),
            forall|x: Seq<char>|
                x != flag_name.text() ==> #[trigger] final(self).flag_source(x) == old(self).flag_source(x),
            final(self).spec_name() == old(self).spec_name(),
            final(self).spec_aliases() == old(self).spec_aliases(),
            final(self).spec_short() == old(self).spec_short(),
            final(self).spec_long() == old(self).spec_long(),
            final(self).spec_subcommands() == old(self).spec_subcommands(),
            final(self).spec_flags() == old(self).spec_flags(),
            final(self).has_run() == old(self).has_run(),
            final(self).run_action() == old(self).run_action(),
            final(self).has_arg_completion() == old(self).has_arg_completion(),
            final(self).arg_source() == old(self).arg_source(),
    {
        let n = flag_name.into_string();
        let ghost nv = n@;
        self.put_flag_completion(n, f);
        assert(nv == flag_name.text());
    }

    fn put_flag_completion<F: Fn(&Context, &str) -> Result<CompletionResult> + Send + Sync + 'static>(
        &mut self,
        name: String,
        f: F,
    )
        requires
            source_total(f),
        ensures
            final(self).completion_flag_names().to_set() == old(self).completion_flag_names().to_set().insert(
                name@,
            ),
            final(self).flag_source(name@) is Some,
            forall|c: Context, p: Seq<char>, r: Result<CompletionResult>|
                #[trigger] final(self).flag_source(name@)->0.admits(c, p, r) == source_admits(f, c, p, r),
            forall|x: Seq<char>|
                x != name@ ==> #[trigger] final(self).flag_source(x) == old(self).flag_source(x),
            final(self).spec_name() == old(self).spec_name(),
            final(self).spec_aliases() == old(self).spec_aliases(),
            final(self).spec_short() == old(self).spec_short(),
            final(self).spec_long() == old(self).spec_long(),
            final(self).spec_subcommands() == old(self).spec_subcommands(),
            final(self).spec_flags() == old(self).spec_flags(),
            final(self).has_run() == old(self).has_run(),
            final(self).run_action() == old(self).run_action(),
            final(self).has_arg_completion() == old(self).has_arg_completion(),
            final(self).arg_source() == old(self).arg_source(),
    {
        let ghost old_names = self.completion_flag_names();
        let mut i: usize = 0;
        while i < self.flag_completions.len()
            invariant
                i <= self.flag_completions@.len(),
                old_names == self.completion_flag_names(),
                forall|k: int| 0 <= k < i ==> old_names[k] != name@,
            ensures
                i <= self.flag_completions@.len(),
                old_names == self.completion_flag_names(),
                forall|k: int| 0 <= k < i ==> old_names[k] != name@,
                i < self.flag_completions@.len() ==> old_names[i as int] == name@,
            decreases self.flag_completions.len() - i,
        {
            if str_eq(self.flag_completions[i].flag.as_str(), name.as_str()) {
                break;
            }
            i = i + 1;
        }
        let ghost nv = name@;
        let mut fc: Vec<FlagCompletion> = Vec::new();
        std::mem::swap(&mut fc, &mut self.flag_completions);
        let ghost old_fc = fc@;
        assert(old_names =~= Seq::new(old_fc.len(), |j: int| old_fc[j].flag@));
        let w = SourceFn::new(f);
        assert(forall|c: Context, p: Seq<char>, r: Result<CompletionResult>|
            #[trigger] w.admits(c, p, r) == source_admits(f, c, p, r));
        let b: Box<dyn CompletionSource> = Box::new(w);
        assert(forall|c: Context, p: Seq<char>, r: Result<CompletionResult>|
            #[trigger] b.admits(c, p, r) == w.admits(c, p, r));
        let a = std::sync::Arc::new(b);
        assert(forall|c: Context, p: Seq<char>, r: Result<CompletionResult>|
            #[trigger] a.admits(c, p, r) == w.admits(c, p, r));
        if i < fc.len() {
            fc.set(i, FlagCompletion { flag: name, source: a });
            assert(fc@.len() == old_fc.len());
            proof {
                assert(forall|k: int| 0 <= k < fc@.len() ==> #[trigger] fc@[k].flag@ == old_fc[k].flag@);
                assert forall|x: Seq<char>| true implies flag_completion_index(fc@, x)
                    == flag_completion_index(old_fc, x) by {
                    lemma_fci_same_names(fc@, old_fc, x);
                }
                assert forall|k: int| 0 <= k < i implies (#[trigger] fc@[k]).flag@ != nv by {
                    assert(old_names[k] == old_fc[k].flag@);
                }
                lemma_fci_found(fc@, nv, i as int);
            }
        } else {
            fc.push(FlagCompletion { flag: name, source: a });
            assert(fc@.len() == old_fc.len() + 1);
            proof {
                assert(fc@ == old_fc.push(fc@.last()));
                assert forall|x: Seq<char>| true implies flag_completion_index(fc@, x)
                    == match flag_completion_index(old_fc, x) {
                    Some(k) => Some(k),
                    None => if x == nv {
                        Some(old_fc.len() as int)
                    } else {
                        None
                    },
                } by {
                    lemma_fci_push(old_fc, fc@.last(), x);
                }
                assert forall|k: int| 0 <= k < old_fc.len() implies (#[trigger] old_fc[k]).flag@ != nv by {
                    assert(old_names[k] == old_fc[k].flag@);
                }
                lemma_fci_none(old_fc, nv);
            }
        }
        proof {
            assert forall|x: Seq<char>| #![trigger flag_completion_index(fc@, x)] true implies (flag_completion_index(old_fc, x) matches Some(k)
                ==> 0 <= k < old_fc.len() && old_fc[k].flag@ == x) && (flag_completion_index(fc@, x) matches Some(k)
                ==> 0 <= k < fc@.len() && fc@[k].flag@ == x) by {
                lemma_fci_bounds(old_fc, x);
                lemma_fci_bounds(fc@, x);
            }
        }
        let ghost nn = Seq::new(fc@.len(), |j: int| fc@[j].flag@);
        proof {
            assert forall|x: Seq<char>| nn.contains(x) <==> old_names.contains(x) || x == nv by {
                if old_names.contains(x) {
                    let k = choose|k: int| 0 <= k < old_names.len() && old_names[k] == x;
                    if k == i {
                        assert(nn[i as int] == nv);
                    } else {
                        assert(nn[k] == x);
                    }
                }
                if x == nv {
                    assert(nn[i as int] == x);
                }
                if nn.contains(x) {
                    let k = choose|k: int| 0 <= k < nn.len() && nn[k] == x;
                    if k != i {
                        assert(old_names[k] == x);
                    }
                }
            }
            assert(nn.to_set() =~= old_names.to_set().insert(nv));
        }
        self.flag_completions = fc;
        assert(self.completion_flag_names() =~= nn);
    }
}



impl Command {
    /// The completion source for the values of flag `name`, if any.
    pub closed spec fn flag_source(&self, name: Seq<char>) -> Option<std::sync::Arc<Box<dyn CompletionSource>>> {
        match flag_completion_index(self.flag_completions@, name) {
            Some(k) => Some(self.flag_completions@[k].source),
            None => None,
        }
    }

    /// The run action, if any.
    pub closed spec fn run_action(&self) -> Option<Box<dyn RunAction>> {
        self.run
    }

    /// The argument completion source, if any.
    pub closed spec fn arg_source(&self) -> Option<Box<dyn CompletionSource>> {
        self.arg_completions
    }

    fn flag_source_exec(&self, name: &str) -> (r: Option<&std::sync::Arc<Box<dyn CompletionSource>>>)
        ensures
            match self.flag_source(name@) {
                Some(s) => r matches Some(x) && *x == s,
                None => r is None,
            },
    {
        let t = &self.flag_completions;
        let mut i: usize = 0;
        assert(t@.skip(0) =~= t@);
        while i < t.len()
            invariant
                i <= t@.len(),
                t@ == self.flag_completions@,
                flag_completion_index(t@, name@) == match flag_completion_index(t@.skip(i as int), name@) {
                    Some(k) => Some(k + i),
                    None => None,
                },
            decreases t.len() - i,
        {
            assert(t@.skip(i as int)[0] == t@[i as int]);
            if str_eq(t[i].flag.as_str(), name) {
                return Some(&t[i].source);
            }
            assert(t@.skip(i as int).drop_first() =~= t@.skip(i + 1));
            i = i + 1;
        }
        None
    }

    /// Completions for `to_complete`: from the completion source of flag
    /// `completing_flag` when one is given, else from the argument
    /// completion source. Without such a source the result is empty.
    pub fn get_completions(
        &self,
        ctx: &Context,
        to_complete: &str,
        completing_flag: Option<&str>,
    ) -> (r: Result<CompletionResult>)
        ensures
            match completing_flag {
                Some(n) => match self.flag_source(n@) {
                    Some(src) => src.admits(*ctx, to_complete@, r),
                    None => r matches Ok(c) && c.values@.len() == 0 && c.descriptions@.len() == 0
                        && c.active_help@.len() == 0,
                },
                None => match self.arg_source() {
                    Some(src) => src.admits(*ctx, to_complete@, r),
                    None => r matches Ok(c) && c.values@.len() == 0 && c.descriptions@.len() == 0
                        && c.active_help@.len() == 0,
                },
            },
    {
        match completing_flag {
            Some(n) => match self.flag_source_exec(n) {
                Some(src) => {
                    return src.complete(ctx, to_complete);
                },
                None => {},
            },
            None => match &self.arg_completions {
                Some(src) => {
                    return src.complete(ctx, to_complete);
                },
                None => {},
            },
        }
        Ok(CompletionResult::new())
    }

    fn push_alias(&mut self, alias: String)
        ensures
            keeps_actions(*old(self), *final(self)),
            final(self).spec_aliases() == old(self).spec_aliases().push(alias@),
            final(self).spec_name() == old(self).spec_name(),
            final(self).spec_short() == old(self).spec_short(),
            final(self).spec_long() == old(self).spec_long(),
            final(self).spec_subcommands() == old(self).spec_subcommands(),
            final(self).spec_flags() == old(self).spec_flags(),
            final(self).has_run() == old(self).has_run(),
            final(self).has_arg_completion() == old(self).has_arg_completion(),
            final(self).completion_flag_names() == old(self).completion_flag_names(),
    {
        let ghost a0 = self.aliases@;
        self.aliases.push(alias);
        assert(string_views(self.aliases@) =~= string_views(a0).push(alias@));
    }

    fn put_flag(&mut self, flag: FlagSpec)
        ensures
            keeps_actions(*old(self), *final(self)),
            final(self).spec_flags() == put_flag(old(self).spec_flags(), flag),
            final(self).spec_aliases() == old(self).spec_aliases(),
            final(self).spec_name() == old(self).spec_name(),
            final(self).spec_short() == old(self).spec_short(),
            final(self).spec_long() == old(self).spec_long(),
            final(self).spec_subcommands() == old(self).spec_subcommands(),
            final(self).has_run() == old(self).has_run(),
            final(self).has_arg_completion() == old(self).has_arg_completion(),
            final(self).completion_flag_names() == old(self).completion_flag_names(),
    {
        match flag_index_exec(&self.flags, flag.name.as_str()) {
            Some(k) => {
                self.flags.set(k, flag);
            },
            None => {
                self.flags.push(flag);
            },
        }
    }
}

/// The position of the first completion source for flag `name`.
proof fn lemma_fci_bounds(t: Seq<FlagCompletion>, name: Seq<char>)
    ensures
        flag_completion_index(t, name) matches Some(k) ==> 0 <= k < t.len() && t[k].flag@ == name,
    decreases t.len(),
{
    if t.len() > 0 {
        lemma_fci_bounds(t.drop_first(), name);
    }
}

proof fn lemma_fci_same_names(t1: Seq<FlagCompletion>, t2: Seq<FlagCompletion>, name: Seq<char>)
    requires
        t1.len() == t2.len(),
        forall|k: int| 0 <= k < t1.len() ==> #[trigger] t1[k].flag@ == t2[k].flag@,
    ensures
        flag_completion_index(t1, name) == flag_completion_index(t2, name),
    decreases t1.len(),
{
    if t1.len() > 0 {
        assert(t1[0].flag@ == t2[0].flag@);
        assert forall|k: int| 0 <= k < t1.len() - 1 implies #[trigger] t1.drop_first()[k].flag@
            == t2.drop_first()[k].flag@ by {
            assert(t1[k + 1].flag@ == t2[k + 1].flag@);
        }
        lemma_fci_same_names(t1.drop_first(), t2.drop_first(), name);
    }
}

proof fn lemma_fci_first(t: Seq<FlagCompletion>, name: Seq<char>)
    ensures
        flag_completion_index(t, name) is None ==> forall|j: int| 0 <= j < t.len() ==> (#[trigger] t[j]).flag@ != name,
        flag_completion_index(t, name) matches Some(k) ==> forall|j: int| 0 <= j < k ==> (#[trigger] t[j]).flag@ != name,
    decreases t.len(),
{
    if t.len() > 0 {
        let rest = t.drop_first();
        lemma_fci_first(rest, name);
        lemma_fci_bounds(rest, name);
        if t[0].flag@ != name {
            assert forall|j: int| 1 <= j < t.len() implies #[trigger] t[j] == rest[j - 1] by {}
        }
    }
}

proof fn lemma_fci_push(t: Seq<FlagCompletion>, e: FlagCompletion, name: Seq<char>)
    ensures
        flag_completion_index(t.push(e), name) == match flag_completion_index(t, name) {
            Some(k) => Some(k),
            None => if e.flag@ == name {
                Some(t.len() as int)
            } else {
                None
            },
        },
{
    let tp = t.push(e);
    lemma_fci_first(t, name);
    lemma_fci_bounds(t, name);
    assert forall|j: int| 0 <= j < t.len() implies #[trigger] tp[j] == t[j] by {}
    match flag_completion_index(t, name) {
        Some(k) => {
            assert forall|j: int| 0 <= j < k implies (#[trigger] tp[j]).flag@ != name by {
                assert(tp[j] == t[j]);
            }
            lemma_fci_found(tp, name, k);
        },
        None => {
            if e.flag@ == name {
                assert forall|j: int| 0 <= j < t.len() implies (#[trigger] tp[j]).flag@ != name by {
                    assert(tp[j] == t[j]);
                }
                lemma_fci_found(tp, name, t.len() as int);
            } else {
                assert forall|j: int| 0 <= j < tp.len() implies (#[trigger] tp[j]).flag@ != name by {
                    if j < t.len() {
                        assert(tp[j] == t[j]);
                    }
                }
                lemma_fci_none(tp, name);
            }
        },
    }
}

proof fn lemma_fci_found(t: Seq<FlagCompletion>, name: Seq<char>, i: int)
    requires
        0 <= i < t.len(),
        t[i].flag@ == name,
        forall|k: int| 0 <= k < i ==> (#[trigger] t[k]).flag@ != name,
    ensures
        flag_completion_index(t, name) == Some(i),
    decreases i,
{
    if i > 0 {
        assert(t[0].flag@ != name);
        assert forall|k: int| 0 <= k < i - 1 implies (#[trigger] t.drop_first()[k]).flag@ != name by {
            assert(t.drop_first()[k] == t[k + 1]);
        }
        lemma_fci_found(t.drop_first(), name, i - 1);
    }
}

proof fn lemma_fci_none(t: Seq<FlagCompletion>, name: Seq<char>)
    requires
        forall|k: int| 0 <= k < t.len() ==> (#[trigger] t[k]).flag@ != name,
    ensures
        flag_completion_index(t, name) is None,
    decreases t.len(),
{
    if t.len() > 0 {
        assert forall|k: int| 0 <= k < t.len() - 1 implies (#[trigger] t.drop_first()[k]).flag@ != name by {
            assert(t.drop_first()[k] == t[k + 1]);
        }
        lemma_fci_none(t.drop_first(), name);
    }
}

spec fn flag_completion_index(t: Seq<FlagCompletion>, name: Seq<char>) -> Option<int>
    decreases t.len(),
{
    if t.len() == 0 {
        None
    } else if t[0].flag@ == name {
        Some(0)
    } else {
        match flag_completion_index(t.drop_first(), name) {
            Some(k) => Some(k + 1),
            None => None,
        }
    }
}

/// `b` has the same run action and completion sources as `a`.
pub open spec fn keeps_actions(a: Command, b: Command) -> bool {
    &&& b.has_run() == a.has_run()
    &&& b.run_action() == a.run_action()
    &&& b.has_arg_completion() == a.has_arg_completion()
    &&& b.arg_source() == a.arg_source()
    &&& b.completion_flag_names() == a.completion_flag_names()
    &&& forall|x: Seq<char>| #[trigger] b.flag_source(x) == a.flag_source(x)
}

/// Builds a [`Command`] step by step.
pub struct CommandBuilder {
    command: Command,
}

impl CommandBuilder {
    /// The command being built.
    pub closed spec fn spec_command(&self) -> Command {
        self.command
    }

    /// A builder for a command named `name`.
    pub fn new<S: IntoText>(name: S) -> (b: CommandBuilder)
        ensures
            b.spec_command().spec_name() == name.text(),
            b.spec_command().spec_aliases().len() == 0,
            b.spec_command().spec_short().len() == 0,
            b.spec_command().spec_long().len() == 0,
            b.spec_command().spec_subcommands().len() == 0,
            b.spec_command().spec_flags().len() == 0,
            !b.spec_command().has_run(),
            !b.spec_command().has_arg_completion(),
            b.spec_command().completion_flag_names().len() == 0,
    {
        CommandBuilder { command: Command::new(name) }
    }

    /// Adds an alias.
    pub fn alias<S: IntoText>(self, alias: S) -> (b: CommandBuilder)
        ensures
            b.spec_command().spec_aliases() == self.spec_command().spec_aliases().push(alias.text()),
            b.spec_command().spec_name() == self.spec_command().spec_name(),
            b.spec_command().spec_short() == self.spec_command().spec_short(),
            b.spec_command().spec_long() == self.spec_command().spec_long(),
            b.spec_command().spec_subcommands() == self.spec_command().spec_subcommands(),
            b.spec_command().spec_flags() == self.spec_command().spec_flags(),
            keeps_actions(self.spec_command(), b.spec_command()),
    {
        let mut b = self;
        b.command.push_alias(alias.into_string());
        b
    }

    /// Adds several aliases, in order.
    pub fn aliases<S: IntoText>(self, aliases: Vec<S>) -> (b: CommandBuilder)
        ensures
            b.spec_command().spec_aliases() == self.spec_command().spec_aliases() + Seq::new(
                aliases@.len(),
                |i: int| aliases@[i].text(),
            ),
            b.spec_command().spec_name() == self.spec_command().spec_name(),
            b.spec_command().spec_short() == self.spec_command().spec_short(),
            b.spec_command().spec_long() == self.spec_command().spec_long(),
            b.spec_command().spec_subcommands() == self.spec_command().spec_subcommands(),
            b.spec_command().spec_flags() == self.spec_command().spec_flags(),
            keeps_actions(self.spec_command(), b.spec_command()),
    {
        let mut b = self;
        let ghost a0 = b.command.spec_aliases();
        let ghost texts = Seq::new(aliases@.len(), |i: int| aliases@[i].text());
        let mut rest = aliases;
        let total = rest.len();
        let ghost n = total as nat;
        let mut k: usize = 0;
        while rest.len() > 0
            invariant
                k + rest@.len() == n,
                n <= usize::MAX,
                forall|i: int| 0 <= i < rest@.len() ==> #[trigger] rest@[i] == aliases@[k + i],
                b.command.spec_aliases() == a0 + texts.take(k as int),
                texts == Seq::new(aliases@.len(), |i: int| aliases@[i].text()),
                n == aliases@.len(),
                b.command.spec_name() == self.spec_command().spec_name(),
                b.command.spec_subcommands() == self.spec_command().spec_subcommands(),
                b.command.spec_flags() == self.spec_command().spec_flags(),
                b.command.spec_short() == self.spec_command().spec_short(),
                b.command.spec_long() == self.spec_command().spec_long(),
                keeps_actions(self.spec_command(), b.command),
            decreases rest@.len(),
        {
            let ghost r0 = rest@;
            let a = rest.remove(0);
            assert(a == aliases@[k as int]);
            assert forall|i: int| 0 <= i < rest@.len() implies #[trigger] rest@[i] == aliases@[k + 1 + i] by {
                assert(rest@[i] == r0[i + 1]);
            }
            let ghost t = a.text();
            b.command.push_alias(a.into_string());
            assert(texts.take(k + 1) =~= texts.take(k as int).push(t));
            assert(a0 + texts.take(k + 1) =~= (a0 + texts.take(k as int)).push(t));
            k = k + 1;
        }
        assert(texts.take(k as int) =~= texts);
        b
    }

    /// Sets the one-line description.
    pub fn short<S: IntoText>(self, short: S) -> (b: CommandBuilder)
        ensures
            b.spec_command().spec_short() == short.text(),
            b.spec_command().spec_name() == self.spec_command().spec_name(),
            b.spec_command().spec_aliases() == self.spec_command().spec_aliases(),
            b.spec_command().spec_long() == self.spec_command().spec_long(),
            b.spec_command().spec_subcommands() == self.spec_command().spec_subcommands(),
            b.spec_command().spec_flags() == self.spec_command().spec_flags(),
            keeps_actions(self.spec_command(), b.spec_command()),
    {
        let mut b = self;
        b.command.short = short.into_string();
        b
    }

    /// Sets the long description.
    pub fn long<S: IntoText>(self, long: S) -> (b: CommandBuilder)
        ensures
            b.spec_command().spec_long() == long.text(),
            b.spec_command().spec_name() == self.spec_command().spec_name(),
            b.spec_command().spec_aliases() == self.spec_command().spec_aliases(),
            b.spec_command().spec_short() == self.spec_command().spec_short(),
            b.spec_command().spec_subcommands() == self.spec_command().spec_subcommands(),
            b.spec_command().spec_flags() == self.spec_command().spec_flags(),
            keeps_actions(self.spec_command(), b.spec_command()),
    {
        let mut b = self;
        b.command.long = long.into_string();
        b
    }

    /// Adds a subcommand, replacing one of the same name.
    pub fn subcommand(self, cmd: Command) -> (b: CommandBuilder)
        ensures
            b.spec_command().spec_subcommands() == put_command(
                self.spec_command().spec_subcommands(),
                cmd,
            ),
            b.spec_command().spec_name() == self.spec_command().spec_name(),
            b.spec_command().spec_aliases() == self.spec_command().spec_aliases(),
            b.spec_command().spec_short() == self.spec_command().spec_short(),
            b.spec_command().spec_long() == self.spec_command().spec_long(),
            b.spec_command().spec_flags() == self.spec_command().spec_flags(),
            keeps_actions(self.spec_command(), b.spec_command()),
    {
        let mut b = self;
        b.command.add_command(cmd);
        b
    }

    /// Adds a flag, replacing one of the same name.
    pub fn flag(self, flag: FlagSpec) -> (b: CommandBuilder)
        ensures
            b.spec_command().spec_flags() == put_flag(self.spec_command().spec_flags(), flag),
            b.spec_command().spec_name() == self.spec_command().spec_name(),
            b.spec_command().spec_aliases() == self.spec_command().spec_aliases(),
            b.spec_command().spec_short() == self.spec_command().spec_short(),
            b.spec_command().spec_long() == self.spec_command().spec_long(),
            b.spec_command().spec_subcommands() == self.spec_command().spec_subcommands(),
            keeps_actions(self.spec_command(), b.spec_command()),
    {
        let mut b = self;
        b.command.put_flag(flag);
        b
    }

    /// Sets what the command does when it runs.
    pub fn run<F: Fn(&mut Context) -> Result<()> + Send + Sync + 'static>(self, f: F) -> (b:
        CommandBuilder)
        requires
            run_total(f),
        ensures
            b.spec_command().has_run(),
            forall|c: Context, r: Result<()>|
                #[trigger] b.spec_command().run_action()->0.may_return(c, r) == run_returns(f, c, r),
            b.spec_command().spec_name() == self.spec_command().spec_name(),
            b.spec_command().spec_aliases() == self.spec_command().spec_aliases(),
            b.spec_command().spec_short() == self.spec_command().spec_short(),
            b.spec_command().spec_long() == self.spec_command().spec_long(),
            b.spec_command().spec_subcommands() == self.spec_command().spec_subcommands(),
            b.spec_command().spec_flags() == self.spec_command().spec_flags(),
            b.spec_command().has_arg_completion() == self.spec_command().has_arg_completion(),
            b.spec_command().arg_source() == self.spec_command().arg_source(),
            b.spec_command().completion_flag_names() == self.spec_command().completion_flag_names(),
            forall|x: Seq<char>|
                #[trigger] b.spec_command().flag_source(x) == self.spec_command().flag_source(x),
    {
        let mut b = self;
        let w = RunFn::new(f);
        assert(forall|c: Context, r: Result<()>| #[trigger] w.may_return(c, r) == run_returns(f, c, r));
        let r: Box<dyn RunAction> = Box::new(w);
        assert(forall|c: Context, x: Result<()>| #[trigger] r.may_return(c, x) == w.may_return(c, x));
        let opt = Some(r);
        assert(forall|c: Context, x: Result<()>| #[trigger] opt->0.may_return(c, x) == w.may_return(c, x));
        b.command.run = opt;
        assert(forall|c: Context, x: Result<()>|
            #[trigger] b.command.run_action()->0.may_return(c, x) == w.may_return(c, x));
        b
    }

    /// Sets where argument completions come from.
    pub fn arg_completion<F: Fn(&Context, &str) -> Result<CompletionResult> + Send + Sync + 'static>(
        self,
        f: F,
    ) -> (b: CommandBuilder)
        requires
            source_total(f),
        ensures
            b.spec_command().has_arg_completion(),
            forall|c: Context, p: Seq<char>, r: Result<CompletionResult>|
                #[trigger] b.spec_command().arg_source()->0.admits(c, p, r) == source_admits(f, c, p, r),
            b.spec_command().spec_name() == self.spec_command().spec_name(),
            b.spec_command().spec_aliases() == self.spec_command().spec_aliases(),
            b.spec_command().spec_short() == self.spec_command().spec_short(),
            b.spec_command().spec_long() == self.spec_command().spec_long(),
            b.spec_command().spec_subcommands() == self.spec_command().spec_subcommands(),
            b.spec_command().spec_flags() == self.spec_command().spec_flags(),
            b.spec_command().has_run() == self.spec_command().has_run(),
            b.spec_command().run_action() == self.spec_command().run_action(),
            b.spec_command().completion_flag_names() == self.spec_command().completion_flag_names(),
            forall|x: Seq<char>|
                #[trigger] b.spec_command().flag_source(x) == self.spec_command().flag_source(x),
    {
        let mut b = self;
        b.command.set_arg_completion(f);
        b
    }

    /// Sets where completions of the values of flag `flag_name` come from.
    pub fn flag_completion<
        S: IntoText,
        F: Fn(&Context, &str) -> Result<CompletionResult> + Send + Sync + 'static,
    >(self, flag_name: S, f: F) -> (b: CommandBuilder)
        requires
            source_total(f),
        ensures
            b.spec_command().completion_flag_names().to_set()
                == self.spec_command().completion_flag_names().to_set().insert(flag_name.text()),
            b.spec_command().flag_source(flag_name.text()) is Some,
            forall|c: Context, p: Seq<char>, r: Result<CompletionResult>|
                #[trigger] b.spec_command().flag_source(flag_name.text())->0.admits(c, p, r)
                    == source_admits(f, c, p, r),
            forall|x: Seq<char>|
                x != flag_name.text() ==> #[trigger] b.spec_command().flag_source(x)
                    == self.spec_command().flag_source(x),
            b.spec_command().spec_name() == self.spec_command().spec_name(),
            b.spec_command().spec_aliases() == self.spec_command().spec_aliases(),
            b.spec_command().spec_short() == self.spec_command().spec_short(),
            b.spec_command().spec_long() == self.spec_command().spec_long(),
            b.spec_command().spec_subcommands() == self.spec_command().spec_subcommands(),
            b.spec_command().spec_flags() == self.spec_command().spec_flags(),
            b.spec_command().has_run() == self.spec_command().has_run(),
            b.spec_command().run_action() == self.spec_command().run_action(),
            b.spec_command().has_arg_completion() == self.spec_command().has_arg_completion(),
            b.spec_command().arg_source() == self.spec_command().arg_source(),
    {
        let mut b = self;
        b.command.set_flag_completion(flag_name, f);
        b
    }

    /// The command built.
    pub fn build(self) -> (c: Command)
        ensures
            c == self.spec_command(),
    {
        self.command
    }
}

// ---------------------------------------------------------------------------
// Running a command line
// ---------------------------------------------------------------------------

/// Where a command line leads.
pub enum Decision {
    /// Run the command reached by this path of subcommand positions.
    Run(Seq<int>),
    /// Show the help of this command; its parent's flags when it has one.
    Help(Command, Option<Seq<FlagSpec>>),
    /// The command has nothing to run and no subcommand was given.
    SubcommandRequired(Seq<char>),
    /// The command has nothing to run and this argument names no
    /// subcommand.
    NotFound(Seq<char>),
}

/// Where the command line `args` leads from `cmd`, given the flags its
/// ancestors define (`inherited`), its parent's own flags (`parent`) and
/// the flag values set so far; with the arguments and flag values the
/// context holds at that point. The flags are parsed against `cmd`'s own
/// flags and the inherited ones; when the first remaining argument names a
/// subcommand, the flags are recorded and the rest of the line goes to it;
/// otherwise `help` shows the help, and else the command runs, or fails
/// when it has nothing to run.
pub open spec fn decide(
    cmd: Command,
    inherited: Seq<FlagKey>,
    parent: Option<Seq<FlagSpec>>,
    args: Seq<Seq<char>>,
    flags: Map<Seq<char>, Seq<char>>,
) -> (Decision, Seq<Seq<char>>, Map<Seq<char>, Seq<char>>)
    decreases cmd,
{
    let known = flag_keys(cmd.spec_flags()) + inherited;
    let (sets, rem) = plain_parse(args, 0, known, Seq::empty(), Seq::empty());
    let parsed = keyed_map(sets);
    let help = parsed.contains_key("help"@);
    let subs = cmd.spec_subcommands();
    if rem.len() > 0 && subcommand_index(subs, rem[0]) is Some && 0 <= subcommand_index(
        subs,
        rem[0],
    )->0 < subs.len() {
        let k = subcommand_index(subs, rem[0])->0;
        if help {
            (Decision::Help(subs[k], Some(cmd.spec_flags())), rem, flags)
        } else {
            let (d, a2, f2) = decide(
                subs[k],
                known,
                Some(cmd.spec_flags()),
                rem.drop_first(),
                flags.union_prefer_right(parsed),
            );
            (
                match d {
                    Decision::Run(p) => Decision::Run(seq![k] + p),
                    other => other,
                },
                a2,
                f2,
            )
        }
    } else if help {
        (Decision::Help(cmd, parent), rem, flags)
    } else {
        let f2 = flags.union_prefer_right(parsed);
        (
            if cmd.has_run() {
                Decision::Run(Seq::empty())
            } else if rem.len() == 0 {
                Decision::SubcommandRequired(cmd.spec_name())
            } else {
                Decision::NotFound(rem[0])
            },
            rem,
            f2,
        )
    }
}

/// Flag values recorded on the way down are never lost: whatever a
/// command line comes to, every flag set before `cmd` is reached is still
/// set in the flags it ends with (flags given at a parent level reach the
/// subcommand that runs).
pub proof fn lemma_flags_are_kept(
    cmd: Command,
    inherited: Seq<FlagKey>,
    parent: Option<Seq<FlagSpec>>,
    args: Seq<Seq<char>>,
    flags: Map<Seq<char>, Seq<char>>,
)
    ensures
        forall|k: Seq<char>|
            flags.contains_key(k) ==> #[trigger] decide(cmd, inherited, parent, args, flags).2.contains_key(
                k,
            ),
    decreases cmd,
{
    let known = flag_keys(cmd.spec_flags()) + inherited;
    let pr = plain_parse(args, 0, known, Seq::empty(), Seq::empty());
    let rem = pr.1;
    let parsed = keyed_map(pr.0);
    let subs = cmd.spec_subcommands();
    let r = decide(cmd, inherited, parent, args, flags);
    if rem.len() > 0 && subcommand_index(subs, rem[0]) is Some && 0 <= subcommand_index(
        subs,
        rem[0],
    )->0 < subs.len() {
        let k = subcommand_index(subs, rem[0])->0;
        if !parsed.contains_key("help"@) {
            assert(decreases_to!(cmd => subs[k])) by {
                assert(subs == cmd.subcommands@);
            }
            let down = flags.union_prefer_right(parsed);
            lemma_flags_are_kept(subs[k], known, Some(cmd.spec_flags()), rem.drop_first(), down);
            assert(r.2 == decide(subs[k], known, Some(cmd.spec_flags()), rem.drop_first(), down).2);
            assert forall|key: Seq<char>| flags.contains_key(key) implies #[trigger] r.2.contains_key(
                key,
            ) by {
                assert(down.contains_key(key));
            }
        }
    } else if !parsed.contains_key("help"@) {
        assert(r.2 == flags.union_prefer_right(parsed));
    }
}

/// `r` is what running `cmd`'s action gives on a context holding the
/// arguments `args` and the flag values `flags`: the action's error, or
/// `Ran` when it succeeds.
pub open spec fn ran_with(cmd: Command, args: Seq<Seq<char>>, flags: Map<Seq<char>, Seq<char>>, r: Result<Outcome>) -> bool {
    exists|c: Context|
        #![trigger c.spec_args(), c.spec_flags()]
        string_views(c.spec_args()) == args && c.spec_flags() == flags && exists|a: Result<()>|
            #[trigger] cmd.run_action()->0.may_return(c, a) && match a {
                Ok(_) => r matches Ok(Outcome::Ran),
                Err(e) => r == Err::<Outcome, Error>(e),
            }
}

/// The command reached from `cmd` along `path`.
pub open spec fn at_path(cmd: Command, path: Seq<int>) -> Command
    decreases path.len(),
{
    if path.len() > 0 && 0 <= path[0] < cmd.spec_subcommands().len() {
        at_path(cmd.spec_subcommands()[path[0]], path.drop_first())
    } else {
        cmd
    }
}

/// Every step of `path` names a subcommand.
pub open spec fn valid_path(cmd: Command, path: Seq<int>) -> bool
    decreases path.len(),
{
    path.len() == 0 || (0 <= path[0] < cmd.spec_subcommands().len() && valid_path(
        cmd.spec_subcommands()[path[0]],
        path.drop_first(),
    ))
}

/// Positions as integers.
pub open spec fn int_path(v: Seq<usize>) -> Seq<int> {
    Seq::new(v.len(), |i: int| v[i] as int)
}

/// What a command line comes to before anything runs.
pub enum Plan {
    /// Run the command at this path of subcommand positions.
    Run(Vec<usize>),
    /// Show this help text.
    Help(String),
    /// Fail with this error.
    Fail(Error),
}

/// `p` is the plan for decision `d`.
pub open spec fn plan_matches(p: Plan, d: Decision, c: bool) -> bool {
    match d {
        Decision::Run(path) => p matches Plan::Run(v) && int_path(v@) == path,
        Decision::Help(cmd, g) => p matches Plan::Help(t) && t@ == crate::help::help_spec(cmd, g, c),
        Decision::SubcommandRequired(n) => p matches Plan::Fail(e) && e matches Error::SubcommandRequired(
            s,
        ) && s@ == n,
        Decision::NotFound(n) => p matches Plan::Fail(e) && e matches Error::CommandNotFound {
            command,
            suggestions,
        } && command@ == n && suggestions@.len() == 0,
    }
}

/// A flag's name and description.
pub open spec fn flag_doc(f: FlagSpec) -> (Seq<char>, Seq<char>) {
    (f.name@, f.usage@)
}

/// The names and descriptions of some flags.
pub open spec fn flag_docs(t: Seq<FlagSpec>) -> Seq<(Seq<char>, Seq<char>)> {
    Seq::new(t.len(), |i: int| flag_doc(t[i]))
}

/// Copies of `a`'s flags followed by copies of `b`'s.
fn joined_flags(a: &Vec<FlagSpec>, b: &Vec<FlagSpec>) -> (r: Vec<FlagSpec>)
    ensures
        flag_keys(r@) == flag_keys(a@) + flag_keys(b@),
        flag_docs(r@) == flag_docs(a@) + flag_docs(b@),
{
    let mut r: Vec<FlagSpec> = Vec::new();
    let mut i: usize = 0;
    while i < a.len()
        invariant
            i <= a@.len(),
            flag_keys(r@) =~= flag_keys(a@).take(i as int),
            flag_docs(r@) =~= flag_docs(a@).take(i as int),
        decreases a.len() - i,
    {
        let ghost b0 = flag_keys(r@);
        let ghost c0 = flag_docs(r@);
        r.push(a[i].duplicate());
        assert(flag_keys(r@) =~= b0.push(flag_key(a@[i as int])));
        assert(flag_keys(a@).take(i + 1) =~= flag_keys(a@).take(i as int).push(flag_key(a@[i as int])));
        assert(flag_docs(r@) =~= c0.push(flag_doc(a@[i as int])));
        assert(flag_docs(a@).take(i + 1) =~= flag_docs(a@).take(i as int).push(flag_doc(a@[i as int])));
        i = i + 1;
    }
    let mut j: usize = 0;
    while j < b.len()
        invariant
            j <= b@.len(),
            i == a@.len(),
            flag_keys(r@) =~= flag_keys(a@).take(i as int) + flag_keys(b@).take(j as int),
            flag_docs(r@) =~= flag_docs(a@).take(i as int) + flag_docs(b@).take(j as int),
        decreases b.len() - j,
    {
        let ghost b0 = flag_keys(r@);
        let ghost c0 = flag_docs(r@);
        r.push(b[j].duplicate());
        assert(flag_keys(r@) =~= b0.push(flag_key(b@[j as int])));
        assert(flag_keys(b@).take(j + 1) =~= flag_keys(b@).take(j as int).push(flag_key(b@[j as int])));
        assert(flag_docs(r@) =~= c0.push(flag_doc(b@[j as int])));
        assert(flag_docs(b@).take(j + 1) =~= flag_docs(b@).take(j as int).push(flag_doc(b@[j as int])));
        j = j + 1;
    }
    assert(flag_keys(a@).take(i as int) =~= flag_keys(a@));
    assert(flag_keys(b@).take(j as int) =~= flag_keys(b@));
    assert(flag_docs(a@).take(i as int) =~= flag_docs(a@));
    assert(flag_docs(b@).take(j as int) =~= flag_docs(b@));
    r
}

fn tail_args(v: &[String]) -> (r: Vec<String>)
    requires
        v@.len() > 0,
    ensures
        string_views(r@) == string_views(v@).drop_first(),
{
    let mut r: Vec<String> = Vec::new();
    let mut i: usize = 1;
    while i < v.len()
        invariant
            1 <= i <= v@.len(),
            string_views(r@) =~= string_views(v@).subrange(1, i as int),
        decreases v.len() - i,
    {
        let ghost b0 = string_views(r@);
        r.push(v[i].clone());
        assert(string_views(r@) =~= b0.push(v@[i as int]@));
        assert(string_views(v@).subrange(1, i + 1) =~= string_views(v@).subrange(1, i as int).push(
            v@[i as int]@,
        ));
        i = i + 1;
    }
    r
}

impl Command {
    fn plan_from(
        &self,
        ctx: &mut Context,
        inherited: &Vec<FlagSpec>,
        parent: Option<&Vec<FlagSpec>>,
        colorize: bool,
    ) -> (p: Plan)
        ensures
            ({
                let (d, a2, f2) = decide(
                    *self,
                    flag_keys(inherited@),
                    match parent {
                        Some(v) => Some(v@),
                        None => None,
                    },
                    string_views(old(ctx).spec_args()),
                    old(ctx).spec_flags(),
                );
                &&& string_views(final(ctx).spec_args()) == a2
                &&& final(ctx).spec_flags() == f2
                &&& plan_matches(p, d, colorize)
            }),
            final(ctx).spec_store() == old(ctx).spec_store(),
            p matches Plan::Run(v) ==> valid_path(*self, int_path(v@)) && at_path(
                *self,
                int_path(v@),
            ).has_run(),
        decreases self,
    {
        let ghost pf = match parent {
            Some(v) => Some(v@),
            None => None,
        };
        let ghost old_args = string_views(ctx.spec_args());
        let ghost old_flags = ctx.spec_flags();
        let known = joined_flags(&self.flags, inherited);
        let (flags, remaining) = parse_command_flags(ctx.args(), &known);
        let ghost rem = string_views(remaining@);
        ctx.set_args(remaining);
        let help = flags.contains_key("help");
        let ghost parsed = flags.spec_map();
        if ctx.args().len() > 0 {
            match self.subcommand_index_exec(ctx.args()[0].as_str()) {
                Some(k) => {
                    proof {
                        assert(rem[0] == ctx.spec_args()[0]@);
                    }
                    let sub = &self.subcommands[k];
                    if help {
                        return Plan::Help(crate::help::help_text(sub, Some(&self.flags), colorize));
                    }
                    ctx.apply_flags(&flags);
                    let rest = tail_args(ctx.args());
                    ctx.set_args(rest);
                    let p = sub.plan_from(ctx, &known, Some(&self.flags), colorize);
                    match p {
                        Plan::Run(path) => {
                            let mut v: Vec<usize> = Vec::new();
                            v.push(k);
                            let mut q: usize = 0;
                            while q < path.len()
                                invariant
                                    q <= path@.len(),
                                    int_path(v@) =~= seq![k as int] + int_path(path@).take(q as int),
                                decreases path.len() - q,
                            {
                                let ghost v0 = int_path(v@);
                                v.push(path[q]);
                                assert(int_path(v@) =~= v0.push(path@[q as int] as int));
                                assert(int_path(path@).take(q + 1) =~= int_path(path@).take(
                                    q as int,
                                ).push(path@[q as int] as int));
                                q = q + 1;
                            }
                            proof {
                                assert(int_path(path@).take(q as int) =~= int_path(path@));
                                let full = int_path(v@);
                                assert(full.drop_first() =~= int_path(path@));
                                assert(full[0] == k as int);
                            }
                            return Plan::Run(v);
                        },
                        other => {
                            return other;
                        },
                    }
                },
                None => {},
            }
        }
        if help {
            return Plan::Help(crate::help::help_text(self, parent, colorize));
        }
        ctx.apply_flags(&flags);
        proof {
            let (sets, rest) = plain_parse(old_args, 0, flag_keys(known@), Seq::empty(), Seq::empty());
            assert(rest == rem);
            assert(keyed_map(sets) == parsed);
            assert(flag_keys(known@) == flag_keys(self.spec_flags()) + flag_keys(inherited@));
            assert(!parsed.contains_key("help"@));
        }
        if self.run.is_some() {
            let v: Vec<usize> = Vec::new();
            assert(int_path(v@) =~= Seq::<int>::empty());
            Plan::Run(v)
        } else if ctx.args().len() == 0 {
            Plan::Fail(Error::SubcommandRequired(self.name.clone()))
        } else {
            Plan::Fail(
                Error::CommandNotFound { command: ctx.args()[0].clone(), suggestions: Vec::new() },
            )
        }
    }
}

/// What running a command line produced.
#[derive(Debug)]
pub enum Outcome {
    /// A command's run action finished.
    Ran,
    /// Help was asked for: this is the text to show.
    Help(String),
}

impl Command {
    fn command_at(&self, path: &Vec<usize>, i: usize) -> (r: &Command)
        requires
            i <= path@.len(),
            valid_path(*self, int_path(path@).skip(i as int)),
        ensures
            *r == at_path(*self, int_path(path@).skip(i as int)),
        decreases path@.len() - i,
    {
        if i == path.len() {
            assert(int_path(path@).skip(i as int) =~= Seq::<int>::empty());
            return self;
        }
        let k = path[i];
        let ghost rest = int_path(path@).skip(i as int);
        assert(rest[0] == k as int);
        assert(rest.drop_first() =~= int_path(path@).skip(i + 1));
        self.subcommands[k].command_at(path, i + 1)
    }

    /// Runs the command line held by `ctx` (see [`decide`]): parses the
    /// flags into the context, follows subcommands, and runs the command
    /// reached, on the context holding the arguments left and the flag
    /// values parsed (see [`ran_with`]). Help requests give the help text to
    /// show; a command with nothing to run fails with `SubcommandRequired`
    /// when no argument is left and `CommandNotFound` otherwise. When no
    /// action runs, the context is left holding the arguments left and the
    /// flag values parsed, with its typed values as they were.
    pub fn execute_with_context(&self, ctx: &mut Context, colorize: bool) -> (r: Result<Outcome>)
        ensures
            ({
                let (d, a2, f2) = decide(
                    *self,
                    Seq::empty(),
                    None,
                    string_views(old(ctx).spec_args()),
                    old(ctx).spec_flags(),
                );
                match d {
                    Decision::Run(path) => valid_path(*self, path) && at_path(*self, path).has_run()
                        && ran_with(at_path(*self, path), a2, f2, r),
                    Decision::Help(cmd, g) => r matches Ok(Outcome::Help(t)) && t@
                        == crate::help::help_spec(cmd, g, colorize) && string_views(
                        final(ctx).spec_args(),
                    ) == a2 && final(ctx).spec_flags() == f2,
                    Decision::SubcommandRequired(n) => r matches Err(e) && e matches Error::SubcommandRequired(
                        s,
                    ) && s@ == n,
                    Decision::NotFound(n) => r matches Err(e) && e matches Error::CommandNotFound {
                        command,
                        suggestions,
                    } && command@ == n && suggestions@.len() == 0,
                }
            }),
            ({
                let (d, a2, f2) = decide(
                    *self,
                    Seq::empty(),
                    None,
                    string_views(old(ctx).spec_args()),
                    old(ctx).spec_flags(),
                );
                !(d is Run) ==> string_views(final(ctx).spec_args()) == a2 && final(ctx).spec_flags() == f2
                    && final(ctx).spec_store() == old(ctx).spec_store()
            }),
    {
        let none: Vec<FlagSpec> = Vec::new();
        assert(flag_keys(none@) =~= Seq::<FlagKey>::empty());
        let ghost dec = decide(*self, Seq::empty(), None, string_views(ctx.spec_args()), ctx.spec_flags());
        let p = self.plan_from(ctx, &none, None, colorize);
        match p {
            Plan::Run(path) => {
                assert(int_path(path@).skip(0) =~= int_path(path@));
                let target = self.command_at(&path, 0);
                let ghost before = *ctx;
                assert(string_views(before.spec_args()) == dec.1 && before.spec_flags() == dec.2);
                match &target.run {
                    Some(action) => {
                        let res = action.run(ctx);
                        let ghost res_v = res;
                        proof {
                            assert(target.run_action()->0.may_return(before, res_v));
                        }
                        match res {
                            Ok(()) => Ok(Outcome::Ran),
                            Err(e) => Err(e),
                        }
                    },
                    None => Ok(Outcome::Ran),
                }
            },
            Plan::Help(t) => Ok(Outcome::Help(t)),
            Plan::Fail(e) => Err(e),
        }
    }

    /// Runs the command line `args` in a new context (see
    /// [`Command::execute_with_context`]).
    pub fn execute(&self, args: Vec<String>, colorize: bool) -> (r: Result<Outcome>)
        ensures
            ({
                let (d, a2, f2) = decide(*self, Seq::empty(), None, string_views(args@), Map::empty());
                match d {
                    Decision::Run(path) => valid_path(*self, path) && at_path(*self, path).has_run()
                        && ran_with(at_path(*self, path), a2, f2, r),
                    Decision::Help(cmd, g) => r matches Ok(Outcome::Help(t)) && t@
                        == crate::help::help_spec(cmd, g, colorize),
                    Decision::SubcommandRequired(n) => r matches Err(e) && e matches Error::SubcommandRequired(
                        s,
                    ) && s@ == n,
                    Decision::NotFound(n) => r matches Err(e) && e matches Error::CommandNotFound {
                        command,
                        suggestions,
                    } && command@ == n && suggestions@.len() == 0,
                }
            }),
    {
        let mut ctx = Context::new(args);
        self.execute_with_context(&mut ctx, colorize)
    }
}

// ---------------------------------------------------------------------------
// Completion suggestions
// ---------------------------------------------------------------------------

/// The first parts of some pairs.
pub open spec fn firsts(p: Seq<(Seq<char>, Seq<char>)>) -> Seq<Seq<char>> {
    Seq::new(p.len(), |i: int| p[i].0)
}

/// The second parts of some pairs.
pub open spec fn seconds(p: Seq<(Seq<char>, Seq<char>)>) -> Seq<Seq<char>> {
    Seq::new(p.len(), |i: int| p[i].1)
}

/// The aliases of command `name` that start with `prefix`, each described
/// as `Alias for <name>`.
pub open spec fn alias_pairs(aliases: Seq<Seq<char>>, name: Seq<char>, prefix: Seq<char>) -> Seq<
    (Seq<char>, Seq<char>),
>
    decreases aliases.len(),
{
    if aliases.len() == 0 {
        Seq::empty()
    } else {
        let rest = alias_pairs(aliases.drop_last(), name, prefix);
        if is_prefix(prefix, aliases.last()) {
            rest.push((aliases.last(), "Alias for "@ + name))
        } else {
            rest
        }
    }
}

/// The subcommand names starting with `prefix`, described by their short
/// descriptions, each followed by its matching aliases.
pub open spec fn suggestion_pairs(subs: Seq<Command>, prefix: Seq<char>) -> Seq<(Seq<char>, Seq<char>)>
    decreases subs.len(),
{
    if subs.len() == 0 {
        Seq::empty()
    } else {
        let c = subs.last();
        let rest = suggestion_pairs(subs.drop_last(), prefix);
        let with_name = if is_prefix(prefix, c.spec_name()) {
            rest.push((c.spec_name(), c.spec_short()))
        } else {
            rest
        };
        with_name + alias_pairs(c.spec_aliases(), c.spec_name(), prefix)
    }
}

/// What completing `prefix` at `cmd` gives in format `f` (see
/// [`Command::get_completion_suggestions`]).
pub open spec fn suggestions_spec(
    cmd: Command,
    prefix: Seq<char>,
    ctx: Option<Context>,
    f: CompletionFormat,
    colorize: bool,
    r: Seq<Seq<char>>,
) -> bool {
    let pairs = suggestion_pairs(cmd.spec_subcommands(), prefix);
    if pairs.len() == 0 && cmd.arg_source() is Some {
        exists|c0: Context, res: Result<CompletionResult>|
            {
                &&& (ctx matches Some(x) ==> c0 == x)
                &&& cmd.arg_source()->0.admits(c0, prefix, res)
                &&& match res {
                    Ok(v) => formatted_as(r, f, v, ctx, colorize),
                    Err(_) => r.len() == 0,
                }
            }
    } else {
        exists|lines: Seq<Seq<char>>|
            formatted_parts(lines, f, firsts(pairs), seconds(pairs), Seq::empty(), None, colorize)
                && sorted_unique(r, lines)
    }
}

/// `r` holds the lines of `lines`, sorted, each once.
pub open spec fn sorted_unique(r: Seq<Seq<char>>, lines: Seq<Seq<char>>) -> bool {
    lex_strictly_sorted(r) && r.to_set() == lines.to_set()
}

fn push_pair(values: &mut Vec<String>, descs: &mut Vec<String>, v: String, d: String)
    ensures
        string_views(final(values)@) == string_views(old(values)@).push(v@),
        string_views(final(descs)@) == string_views(old(descs)@).push(d@),
{
    let ghost v0 = string_views(values@);
    let ghost d0 = string_views(descs@);
    let ghost vv = v@;
    let ghost dv = d@;
    values.push(v);
    descs.push(d);
    assert(string_views(values@) =~= v0.push(vv));
    assert(string_views(descs@) =~= d0.push(dv));
}

fn alias_pairs_exec(
    aliases: &Vec<String>,
    name: &str,
    prefix: &str,
    values: &mut Vec<String>,
    descs: &mut Vec<String>,
)
    ensures
        string_views(final(values)@) == string_views(old(values)@) + firsts(
            alias_pairs(string_views(aliases@), name@, prefix@),
        ),
        string_views(final(descs)@) == string_views(old(descs)@) + seconds(
            alias_pairs(string_views(aliases@), name@, prefix@),
        ),
{
    let ghost av = string_views(aliases@);
    let ghost v0 = string_views(values@);
    let ghost d0 = string_views(descs@);
    let mut i: usize = 0;
    assert(av.take(0) =~= Seq::<Seq<char>>::empty());
    assert(v0 + firsts(alias_pairs(av.take(0), name@, prefix@)) =~= v0);
    assert(d0 + seconds(alias_pairs(av.take(0), name@, prefix@)) =~= d0);
    while i < aliases.len()
        invariant
            i <= aliases@.len(),
            av == string_views(aliases@),
            string_views(values@) == v0 + firsts(alias_pairs(av.take(i as int), name@, prefix@)),
            string_views(descs@) == d0 + seconds(alias_pairs(av.take(i as int), name@, prefix@)),
        decreases aliases.len() - i,
    {
        let ghost pre = alias_pairs(av.take(i as int), name@, prefix@);
        assert(av.take(i + 1).drop_last() =~= av.take(i as int));
        assert(av.take(i + 1).last() == aliases@[i as int]@);
        if crate::text::str_starts_with(aliases[i].as_str(), prefix) {
            let mut d = str_chars("Alias for ");
            crate::text::push_str_chars(&mut d, name);
            push_pair(values, descs, aliases[i].clone(), string_from_chars(&d));
            assert(firsts(pre.push((aliases@[i as int]@, "Alias for "@ + name@))) =~= firsts(pre).push(
                aliases@[i as int]@,
            ));
            assert(seconds(pre.push((aliases@[i as int]@, "Alias for "@ + name@))) =~= seconds(
                pre,
            ).push("Alias for "@ + name@));
        }
        i = i + 1;
    }
    assert(av.take(i as int) =~= av);
}

impl Command {
    fn suggestion_pairs_exec(&self, prefix: &str) -> (r: (Vec<String>, Vec<String>))
        ensures
            string_views(r.0@) == firsts(suggestion_pairs(self.spec_subcommands(), prefix@)),
            string_views(r.1@) == seconds(suggestion_pairs(self.spec_subcommands(), prefix@)),
    {
        let subs = &self.subcommands;
        let mut values: Vec<String> = Vec::new();
        let mut descs: Vec<String> = Vec::new();
        let mut i: usize = 0;
        assert(subs@.take(0) =~= Seq::<Command>::empty());
        assert(string_views(values@) =~= firsts(suggestion_pairs(subs@.take(0), prefix@)));
        assert(string_views(descs@) =~= seconds(suggestion_pairs(subs@.take(0), prefix@)));
        while i < subs.len()
            invariant
                i <= subs@.len(),
                subs@ == self.spec_subcommands(),
                string_views(values@) == firsts(suggestion_pairs(subs@.take(i as int), prefix@)),
                string_views(descs@) == seconds(suggestion_pairs(subs@.take(i as int), prefix@)),
            decreases subs.len() - i,
        {
            let c = &subs[i];
            let ghost pre = suggestion_pairs(subs@.take(i as int), prefix@);
            assert(subs@.take(i + 1).drop_last() =~= subs@.take(i as int));
            assert(subs@.take(i + 1).last() == *c);
            let ghost with_name = if is_prefix(prefix@, c.spec_name()) {
                pre.push((c.spec_name(), c.spec_short()))
            } else {
                pre
            };
            if crate::text::str_starts_with(c.name.as_str(), prefix) {
                push_pair(&mut values, &mut descs, c.name.clone(), c.short.clone());
                assert(firsts(with_name) =~= firsts(pre).push(c.spec_name()));
                assert(seconds(with_name) =~= seconds(pre).push(c.spec_short()));
            }
            alias_pairs_exec(&c.aliases, c.name.as_str(), prefix, &mut values, &mut descs);
            let ghost ap = alias_pairs(c.spec_aliases(), c.spec_name(), prefix@);
            assert(firsts(with_name + ap) =~= firsts(with_name) + firsts(ap));
            assert(seconds(with_name + ap) =~= seconds(with_name) + seconds(ap));
            i = i + 1;
        }
        assert(subs@.take(i as int) =~= subs@);
        (values, descs)
    }

    /// Suggestions for completing `prefix` here: the subcommands and
    /// aliases starting with it, formatted for `shell_type` and then sorted
    /// with repeats removed. When none match and the command has an
    /// argument completion source, what that source gives for `prefix`
    /// (in `ctx`, or an empty context), formatted, and nothing when it
    /// fails.
    pub fn get_completion_suggestions(
        &self,
        prefix: &str,
        ctx: Option<&Context>,
        shell_type: Option<&str>,
        colorize: bool,
    ) -> (r: Vec<String>)
        ensures
            suggestions_spec(
                *self,
                prefix@,
                match ctx {
                    Some(x) => Some(*x),
                    None => None,
                },
                shell_format(
                    match shell_type {
                        Some(s) => Some(s@),
                        None => None,
                    },
                ),
                colorize,
                string_views(r@),
            ),
    {
        let format = CompletionFormat::from_shell_type(shell_type);
        let (values, descriptions) = self.suggestion_pairs_exec(prefix);
        if values.len() == 0 {
            match &self.arg_completions {
                Some(src) => {
                    let fresh = Context::new(Vec::new());
                    let used = match ctx {
                        Some(x) => x,
                        None => &fresh,
                    };
                    let res = src.complete(used, prefix);
                    let ghost res_v = res;
                    let ghost c0 = *used;
                    proof {
                        assert(firsts(suggestion_pairs(self.spec_subcommands(), prefix@)).len() == 0);
                        assert(self.arg_source()->0.admits(c0, prefix@, res_v));
                    }
                    match res {
                        Ok(v) => {
                            let out = format_checked(format, &v, ctx, colorize);
                            assert(ctx matches Some(x) ==> c0 == *x);
                            assert(formatted_as(
                                string_views(out@),
                                format,
                                v,
                                match ctx {
                                    Some(x) => Some(*x),
                                    None => None,
                                },
                                colorize,
                            ));
                            return out;
                        },
                        Err(_) => {
                            let none: Vec<String> = Vec::new();
                            assert(ctx matches Some(x) ==> c0 == *x);
                            return none;
                        },
                    }
                },
                None => {},
            }
        }
        let result = CompletionResult { values, descriptions, active_help: Vec::new() };
        let lines = format_checked(format, &result, None, colorize);
        let ghost pairs = suggestion_pairs(self.spec_subcommands(), prefix@);
        assert(result.active_help@ =~= Seq::<crate::active_help::ActiveHelp>::empty());
        assert(formatted_parts(
            string_views(lines@),
            format,
            firsts(pairs),
            seconds(pairs),
            Seq::empty(),
            None,
            colorize,
        ));
        let mut sorted: Vec<Vec<char>> = Vec::new();
        let mut i: usize = 0;
        assert(char_views(sorted@).to_set() =~= string_views(lines@).take(0).to_set());
        while i < lines.len()
            invariant
                i <= lines@.len(),
                lex_strictly_sorted(char_views(sorted@)),
                char_views(sorted@).to_set() == string_views(lines@).take(i as int).to_set(),
            decreases lines.len() - i,
        {
            insert_lex_unique(&mut sorted, str_chars(lines[i].as_str()));
            proof {
                let lv = string_views(lines@);
                assert(lv.take(i + 1) =~= lv.take(i as int).push(lv[i as int]));
                lv.take(i as int).lemma_push_to_set_commute(lv[i as int]);
            }
            i = i + 1;
        }
        assert(string_views(lines@).take(i as int) =~= string_views(lines@));
        let mut out: Vec<String> = Vec::new();
        let mut k: usize = 0;
        while k < sorted.len()
            invariant
                k <= sorted@.len(),
                string_views(out@) =~= char_views(sorted@).take(k as int),
            decreases sorted.len() - k,
        {
            let ghost o0 = string_views(out@);
            out.push(string_from_chars(&sorted[k]));
            assert(string_views(out@) =~= o0.push(sorted@[k as int]@));
            assert(char_views(sorted@).take(k + 1) =~= char_views(sorted@).take(k as int).push(
                sorted@[k as int]@,
            ));
            k = k + 1;
        }
        assert(char_views(sorted@).take(k as int) =~= char_views(sorted@));
        assert(string_views(out@) == char_views(sorted@));
        assert(sorted_unique(string_views(out@), string_views(lines@)));
        out
    }
}

// ---------------------------------------------------------------------------
// Answering completion requests
// ---------------------------------------------------------------------------

/// The flags a command and its ancestors define, nearest first.
pub open spec fn chain_keys(chain: Seq<Command>) -> Seq<FlagKey>
    decreases chain.len(),
{
    if chain.len() == 0 {
        Seq::empty()
    } else {
        flag_keys(chain[0].spec_flags()) + chain_keys(chain.drop_first())
    }
}

/// The names and descriptions of the flags of a command and its
/// ancestors, nearest first.
pub open spec fn chain_docs(chain: Seq<Command>) -> Seq<(Seq<char>, Seq<char>)>
    decreases chain.len(),
{
    if chain.len() == 0 {
        Seq::empty()
    } else {
        flag_docs(chain[0].spec_flags()) + chain_docs(chain.drop_first())
    }
}

/// The flags the letters `cs` name, set to empty values.
pub open spec fn short_marks(keys: Seq<FlagKey>, cs: Seq<char>, flags: Map<Seq<char>, Seq<char>>) -> Map<
    Seq<char>,
    Seq<char>,
>
    decreases cs.len(),
{
    if cs.len() == 0 {
        flags
    } else {
        let f2 = match find_short(keys, cs[0]) {
            Some(k) => flags.insert(k.0, Seq::empty()),
            None => flags,
        };
        short_marks(keys, cs.drop_first(), f2)
    }
}

/// Walks the words before the one being completed from position `i`:
/// subcommand names lead into their subcommands (`chain` holds the command
/// reached first, then its ancestors), other words become arguments, and
/// flags are recorded: `--name=value` and short flags with empty values,
/// `--name value` for a known flag with its value.
pub open spec fn walk(
    prev: Seq<Seq<char>>,
    i: int,
    chain: Seq<Command>,
    args: Seq<Seq<char>>,
    flags: Map<Seq<char>, Seq<char>>,
) -> (Seq<Command>, Seq<Seq<char>>, Map<Seq<char>, Seq<char>>)
    decreases prev.len() - i,
{
    if i < 0 || i >= prev.len() || chain.len() == 0 {
        (chain, args, flags)
    } else {
        let a = prev[i];
        let keys = chain_keys(chain);
        if is_long(a) {
            let body = trim_dashes(a);
            match first_pos(body, '=') {
                Some(k) => walk(prev, i + 1, chain, args, flags.insert(body.take(k), Seq::empty())),
                None => if find_named(keys, body) is Some && i + 1 < prev.len() && !starts_dash(
                    prev[i + 1],
                ) {
                    walk(prev, i + 2, chain, args, flags.insert(body, prev[i + 1]))
                } else {
                    walk(prev, i + 1, chain, args, flags)
                },
            }
        } else if a.len() > 1 && a[0] == '-' {
            walk(prev, i + 1, chain, args, short_marks(keys, a.drop_first(), flags))
        } else {
            let subs = chain[0].spec_subcommands();
            match subcommand_index(subs, a) {
                Some(k) => if 0 <= k < subs.len() {
                    walk(prev, i + 1, seq![subs[k]] + chain, args, flags)
                } else {
                    walk(prev, i + 1, chain, args.push(a), flags)
                },
                None => walk(prev, i + 1, chain, args.push(a), flags),
            }
        }
    }
}

/// A flag the command knows, given as `--name` and followed by a word not
/// starting with `-`, takes that word as its value: it is the first setting
/// the parse makes, and the word is not handed on as an argument.
pub proof fn lemma_known_flag_takes_next_word(
    known: Seq<FlagKey>,
    j: int,
    w: Seq<char>,
)
    requires
        0 <= j < known.len(),
        known[j].0.len() > 0,
        !(known[j].0.len() >= 2 && known[j].0[0] == '-' && known[j].0[1] == '-'),
        forall|k: int| 0 <= k < known[j].0.len() ==> known[j].0[k] != '=',
        known[j].0 != "help"@,
        !(w.len() > 0 && w[0] == '-'),
    ensures
        plain_parse(seq![seq!['-', '-'] + known[j].0, w], 0, known, Seq::empty(), Seq::empty())
            == (seq![(known[j].0, w)], Seq::<Seq<char>>::empty()),
{
    let f = known[j].0;
    let a = seq!['-', '-'] + f;
    assert(a.skip(2) =~= f);
    assert(trim_dashes(f) == f);
    assert(trim_dashes(a) == f);
    lemma_no_equals(f);
    lemma_named_found(known, j);
    let args = seq![a, w];
    assert(args[0] == a && args[1] == w);
    assert(!is_separator(a));
    assert(is_long(a));
    assert(!starts_dash(w));
    let one = Seq::<(Seq<char>, Seq<char>)>::empty().push((f, w));
    assert(one =~= seq![(f, w)]);
    assert(plain_parse(args, 2, known, one, Seq::empty()) == (one, Seq::<Seq<char>>::empty()));
    assert(plain_parse(args, 0, known, Seq::empty(), Seq::empty()) == plain_parse(
        args,
        2,
        known,
        one,
        Seq::empty(),
    ));
}

/// `w` is a plain word: it does not start with `-`.
pub open spec fn plain_word(w: Seq<char>) -> bool {
    !(w.len() > 0 && w[0] == '-')
}

/// In a completion request, plain words before the cursor that name no
/// subcommand of the command reached are passed on as its arguments, in
/// order, after those already gathered; the command and the flags stay.
pub proof fn lemma_plain_words_become_arguments(
    prev: Seq<Seq<char>>,
    i: int,
    chain: Seq<Command>,
    args: Seq<Seq<char>>,
    flags: Map<Seq<char>, Seq<char>>,
)
    requires
        0 <= i <= prev.len(),
        chain.len() > 0,
        forall|j: int|
            i <= j < prev.len() ==> plain_word(prev[j]) && subcommand_index(
                chain[0].spec_subcommands(),
                #[trigger] prev[j],
            ) is None,
    ensures
        walk(prev, i, chain, args, flags) == (chain, args + prev.skip(i), flags),
    decreases prev.len() - i,
{
    if i == prev.len() {
        assert(args + prev.skip(i) =~= args);
    } else {
        let a = prev[i];
        assert(plain_word(a));
        assert(subcommand_index(chain[0].spec_subcommands(), a) is None);
        lemma_plain_words_become_arguments(prev, i + 1, chain, args.push(a), flags);
        assert(args.push(a) + prev.skip(i + 1) =~= args + prev.skip(i));
    }
}

/// In a completion request whose first word names subcommand `k` of the
/// command, the plain words after it that name none of that
/// subcommand's own subcommands become its arguments, in order.
pub proof fn lemma_arguments_after_subcommand(
    prev: Seq<Seq<char>>,
    chain: Seq<Command>,
    flags: Map<Seq<char>, Seq<char>>,
    k: int,
)
    requires
        chain.len() > 0,
        prev.len() > 0,
        plain_word(prev[0]),
        0 <= k < chain[0].spec_subcommands().len(),
        subcommand_index(chain[0].spec_subcommands(), prev[0]) == Some(k),
        forall|j: int|
            1 <= j < prev.len() ==> plain_word(prev[j]) && subcommand_index(
                chain[0].spec_subcommands()[k].spec_subcommands(),
                #[trigger] prev[j],
            ) is None,
    ensures
        walk(prev, 0, chain, Seq::empty(), flags) == (
            seq![chain[0].spec_subcommands()[k]] + chain,
            prev.skip(1),
            flags,
        ),
{
    let c2 = seq![chain[0].spec_subcommands()[k]] + chain;
    assert(c2[0] == chain[0].spec_subcommands()[k]);
    lemma_plain_words_become_arguments(prev, 1, c2, Seq::empty(), flags);
    assert(Seq::<Seq<char>>::empty() + prev.skip(1) =~= prev.skip(1));
}

/// The flags of `docs` whose names start with `prefix`, as `--name` with
/// the flag's description.
pub open spec fn flag_name_pairs(docs: Seq<(Seq<char>, Seq<char>)>, prefix: Seq<char>) -> Seq<
    (Seq<char>, Seq<char>),
>
    decreases docs.len(),
{
    if docs.len() == 0 {
        Seq::empty()
    } else {
        let rest = flag_name_pairs(docs.drop_last(), prefix);
        if is_prefix(prefix, docs.last().0) {
            rest.push(("--"@ + docs.last().0, docs.last().1))
        } else {
            rest
        }
    }
}

/// The answer to a completion request `args` (`__complete`, the words
/// before the cursor, then the word being completed) in format `f`.
pub open spec fn completion_answer(
    cmd: Command,
    args: Seq<Seq<char>>,
    f: CompletionFormat,
    colorize: bool,
    r: Result<Vec<String>>,
) -> bool {
    if args.len() == 0 || args[0] != "__complete"@ {
        r matches Err(e) && e matches Error::Completion(m) && m@ == "Invalid completion request"@
    } else if args.len() == 1 {
        r matches Ok(v) && suggestions_spec(cmd, Seq::empty(), None, f, colorize, string_views(v@))
    } else {
        let words = args.drop_first();
        let cw = words.last();
        let prev = words.drop_last();
        let (chain, wargs, wflags) = walk(prev, 0, seq![cmd], Seq::empty(), Map::empty());
        let cur = chain[0];
        if is_long(cw) {
            let pairs = flag_name_pairs(chain_docs(chain), trim_dashes(cw));
            r matches Ok(v) && formatted_parts(
                string_views(v@),
                f,
                firsts(pairs),
                seconds(pairs),
                Seq::empty(),
                None,
                colorize,
            )
        } else if cw.len() > 1 && cw[0] == '-' {
            r matches Ok(v) && v@.len() == 0
        } else if prev.len() > 0 && is_long(prev.last()) && cur.flag_source(trim_dashes(prev.last())) is Some {
            exists|c: Context, res: Result<CompletionResult>|
                {
                    &&& string_views(c.spec_args()) == wargs
                    &&& c.spec_flags() == wflags
                    &&& cur.flag_source(trim_dashes(prev.last()))->0.admits(c, cw, res)
                    &&& match res {
                        Ok(v) => r matches Ok(lines) && formatted_as(
                            string_views(lines@),
                            f,
                            v,
                            Some(c),
                            colorize,
                        ),
                        Err(e) => r == Err::<Vec<String>, Error>(e),
                    }
                }
        } else {
            exists|c: Context|
                {
                    &&& string_views(c.spec_args()) == wargs
                    &&& c.spec_flags() == wflags
                    &&& r matches Ok(v) && suggestions_spec(cur, cw, Some(c), f, colorize, string_views(v@))
                }
        }
    }
}

impl Command {
    /// Answers a shell completion request `args`: `__complete`, the words
    /// before the cursor, then the word being completed (see
    /// [`completion_answer`]). The words are walked through subcommands and
    /// flags; a word starting with `--` is completed from the flags of the
    /// command reached and its ancestors; after a flag with a completion
    /// source, that source completes the value; otherwise subcommands and
    /// arguments are suggested. Lines are formatted for `shell_type`.
    pub fn handle_completion_request(
        &self,
        args: &[String],
        shell_type: Option<&str>,
        colorize: bool,
    ) -> (r: Result<Vec<String>>)
        ensures
            completion_answer(
                *self,
                string_views(args@),
                shell_format(
                    match shell_type {
                        Some(s) => Some(s@),
                        None => None,
                    },
                ),
                colorize,
                r,
            ),
    {
        let format = CompletionFormat::from_shell_type(shell_type);
        let ghost av = string_views(args@);
        if args.len() == 0 || !str_eq(args[0].as_str(), "__complete") {
            return Err(Error::Completion(to_owned_string("Invalid completion request")));
        }
        assert(av[0] == "__complete"@);
        if args.len() == 1 {
            proof {
                reveal_strlit("");
                assert(""@ =~= Seq::<char>::empty());
            }
            return Ok(self.get_completion_suggestions("", None, shell_type, colorize));
        }
        let n = args.len();
        let plen = n - 2;
        let ghost words = av.drop_first();
        let ghost prev = words.drop_last();
        assert(prev.len() == plen);
        assert(forall|j: int| 0 <= j < plen ==> #[trigger] prev[j] == args@[j + 1]@);
        let mut cur: &Command = self;
        let ghost mut chain: Seq<Command> = seq![*self];
        let none: Vec<FlagSpec> = Vec::new();
        let mut known = joined_flags(&self.flags, &none);
        proof {
            assert(flag_keys(none@) =~= Seq::<FlagKey>::empty());
            assert(flag_docs(none@) =~= Seq::<(Seq<char>, Seq<char>)>::empty());
            assert(chain.drop_first() =~= Seq::<Command>::empty());
            assert(chain_keys(chain.drop_first()) =~= Seq::<FlagKey>::empty());
            assert(chain_docs(chain.drop_first()) =~= Seq::<(Seq<char>, Seq<char>)>::empty());
            assert(chain_keys(chain) =~= flag_keys(self.spec_flags()));
            assert(chain_docs(chain) =~= flag_docs(self.spec_flags()));
        }
        let mut ctx = Context::new(Vec::new());
        assert(string_views(ctx.spec_args()) =~= Seq::<Seq<char>>::empty());
        let mut i: usize = 0;
        while i < plen
            invariant
                i <= plen + 1,
                plen + 2 == n == args@.len(),
                av == string_views(args@),
                prev.len() == plen,
                forall|j: int| 0 <= j < plen ==> #[trigger] prev[j] == args@[j + 1]@,
                chain.len() > 0,
                chain[0] == *cur,
                flag_keys(known@) == chain_keys(chain),
                flag_docs(known@) == chain_docs(chain),
                walk(prev, 0, seq![*self], Seq::empty(), Map::empty()) == walk(
                    prev,
                    i as int,
                    chain,
                    string_views(ctx.spec_args()),
                    ctx.spec_flags(),
                ),
            decreases plen - i,
        {
            let a = &args[i + 1];
            let ac = str_chars(a.as_str());
            assert(prev[i as int] == ac@);
            let ghost keys = chain_keys(chain);
            if ac.len() >= 2 && ac[0] == '-' && ac[1] == '-' {
                let body = trim_dashes_exec(&ac);
                match crate::parse_optimized::first_eq(&body) {
                    Some(k) => {
                        let name = crate::parse_optimized::sub_chars(&body, 0, k);
                        assert(name@ =~= body@.take(k as int));
                        ctx.set_flag(string_from_chars(&name), String::new());
                        i = i + 1;
                    },
                    None => {
                        let found = find_named_in(&known, &body).is_some();
                        if found && i + 1 < plen && !starts_with_dash(args[i + 2].as_str()) {
                            assert(prev[i + 1] == args@[i + 2]@);
                            ctx.set_flag(string_from_chars(&body), args[i + 2].clone());
                            i = i + 2;
                        } else {
                            proof {
                                if i + 1 < plen {
                                    assert(prev[i + 1] == args@[i + 2]@);
                                }
                            }
                            i = i + 1;
                        }
                    },
                }
            } else if ac.len() > 1 && ac[0] == '-' {
                let ghost f0 = ctx.spec_flags();
                let ghost a0 = ctx.spec_args();
                let ghost cs = ac@.drop_first();
                let mut j: usize = 1;
                assert(ac@.skip(1) =~= cs);
                while j < ac.len()
                    invariant
                        1 <= j <= ac@.len(),
                        cs == ac@.drop_first(),
                        flag_keys(known@) == keys,
                        short_marks(keys, cs, f0) == short_marks(
                            keys,
                            ac@.skip(j as int),
                            ctx.spec_flags(),
                        ),
                        ctx.spec_args() == a0,
                    decreases ac.len() - j,
                {
                    let ghost rest = ac@.skip(j as int);
                    assert(rest[0] == ac@[j as int]);
                    assert(rest.drop_first() =~= ac@.skip(j + 1));
                    match find_short_in(&known, ac[j]) {
                        Some(fi) => {
                            ctx.set_flag(known[fi].name.clone(), String::new());
                        },
                        None => {},
                    }
                    j = j + 1;
                }
                assert(ac@.skip(j as int) =~= Seq::<char>::empty());
                i = i + 1;
            } else {
                match cur.subcommand_index_exec(a.as_str()) {
                    Some(k) => {
                        let sub = &cur.subcommands[k];
                        known = joined_flags(&sub.flags, &known);
                        proof {
                            let next = seq![*sub] + chain;
                            assert(next.drop_first() =~= chain);
                            assert(next[0] == *sub);
                            chain = next;
                        }
                        cur = sub;
                    },
                    None => {
                        let ghost before = string_views(ctx.spec_args());
                        ctx.push_arg(a.clone());
                        assert(string_views(ctx.spec_args()) =~= before.push(ac@));
                    },
                }
                i = i + 1;
            }
        }
        let cw = &args[n - 1];
        let cwc = str_chars(cw.as_str());
        assert(words.last() == cwc@);
        if cwc.len() >= 2 && cwc[0] == '-' && cwc[1] == '-' {
            let prefix = trim_dashes_exec(&cwc);
            let mut values: Vec<String> = Vec::new();
            let mut descs: Vec<String> = Vec::new();
            let ghost docs = flag_docs(known@);
            let mut q: usize = 0;
            assert(docs.take(0) =~= Seq::<(Seq<char>, Seq<char>)>::empty());
            while q < known.len()
                invariant
                    q <= known@.len(),
                    docs == flag_docs(known@),
                    string_views(values@) == firsts(flag_name_pairs(docs.take(q as int), prefix@)),
                    string_views(descs@) == seconds(flag_name_pairs(docs.take(q as int), prefix@)),
                decreases known.len() - q,
            {
                let ghost pre = flag_name_pairs(docs.take(q as int), prefix@);
                assert(docs.take(q + 1).drop_last() =~= docs.take(q as int));
                assert(docs.take(q + 1).last() == flag_doc(known@[q as int]));
                let nm = str_chars(known[q].name.as_str());
                if crate::text::starts_with_chars(&nm, &prefix) {
                    let mut v = str_chars("--");
                    crate::text::push_slice(&mut v, &nm);
                    push_pair(&mut values, &mut descs, string_from_chars(&v), known[q].usage.clone());
                    let ghost item = ("--"@ + known@[q as int].name@, known@[q as int].usage@);
                    assert(firsts(pre.push(item)) =~= firsts(pre).push(item.0));
                    assert(seconds(pre.push(item)) =~= seconds(pre).push(item.1));
                }
                q = q + 1;
            }
            assert(docs.take(q as int) =~= docs);
            let result = CompletionResult { values, descriptions: descs, active_help: Vec::new() };
            let out = format_checked(format, &result, None, colorize);
            assert(result.active_help@ =~= Seq::<crate::active_help::ActiveHelp>::empty());
            return Ok(out);
        } else if cwc.len() > 1 && cwc[0] == '-' {
            return Ok(Vec::new());
        }
        if plen > 0 {
            let lc = str_chars(args[n - 2].as_str());
            assert(prev.last() == lc@);
            if lc.len() >= 2 && lc[0] == '-' && lc[1] == '-' {
                let flag_name = trim_dashes_exec(&lc);
                let fname = string_from_chars(&flag_name);
                match cur.flag_source_exec(fname.as_str()) {
                    Some(src) => {
                        let res = src.complete(&ctx, cw.as_str());
                        let ghost c0 = ctx;
                        let ghost rv = res;
                        proof {
                            assert(cur.flag_source(trim_dashes(prev.last()))->0.admits(c0, words.last(), rv));
                        }
                        match res {
                            Ok(v) => {
                                let out = format_checked(format, &v, Some(&ctx), colorize);
                                return Ok(out);
                            },
                            Err(e) => {
                                return Err(e);
                            },
                        }
                    },
                    None => {},
                }
            }
        }
        let out = cur.get_completion_suggestions(cw.as_str(), Some(&ctx), shell_type, colorize);
        Ok(out)
    }
}
} // verus!
