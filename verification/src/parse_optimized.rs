//! Flag parsing that checks flag values against their types and hands the
//! remaining arguments back as borrowed slices.

use vstd::prelude::*;
use crate::context::{keyed_map, lemma_keyed_push, FlagMap};
use crate::error::{Error, Result};
use crate::flag::{accepts, check_value, rejection_message, FlagSpec, FlagType};
use crate::text::{chars_eq, str_chars, str_eq, string_from_chars, string_views, to_owned_string};

verus! {

// ---------------------------------------------------------------------------
// Argument shapes
// ---------------------------------------------------------------------------

/// The argument `--`, after which everything is positional.
pub open spec fn is_separator(a: Seq<char>) -> bool {
    a.len() == 2 && a[0] == '-' && a[1] == '-'
}

/// An argument starting with `--`.
pub open spec fn is_long(a: Seq<char>) -> bool {
    a.len() >= 2 && a[0] == '-' && a[1] == '-'
}

/// An argument starting with `-`.
pub open spec fn starts_dash(a: Seq<char>) -> bool {
    a.len() > 0 && a[0] == '-'
}

/// The position of the first `c` in `s`.
pub open spec fn first_pos(s: Seq<char>, c: char) -> Option<int>
    decreases s.len(),
{
    if s.len() == 0 {
        None
    } else if s[0] == c {
        Some(0)
    } else {
        match first_pos(s.drop_first(), c) {
            Some(k) => Some(k + 1),
            None => None,
        }
    }
}

// ---------------------------------------------------------------------------
// Finding flags
// ---------------------------------------------------------------------------

/// What parsing needs of a flag: its long name, short name and value type.
pub type FlagKey = (Seq<char>, Option<char>, FlagType);

/// The parsing-relevant part of a flag.
pub open spec fn flag_key(f: FlagSpec) -> FlagKey {
    (f.name@, f.short, f.value_type)
}

/// The parsing-relevant parts of some flags.
pub open spec fn flag_keys(t: Seq<FlagSpec>) -> Seq<FlagKey> {
    Seq::new(t.len(), |i: int| flag_key(t[i]))
}

/// The first flag in `t` with long name `name`.
pub open spec fn find_named(t: Seq<FlagKey>, name: Seq<char>) -> Option<FlagKey>
    decreases t.len(),
{
    if t.len() == 0 {
        None
    } else if t[0].0 == name {
        Some(t[0])
    } else {
        find_named(t.drop_first(), name)
    }
}

/// The first flag in `t` with short name `c`.
pub open spec fn find_short(t: Seq<FlagKey>, c: char) -> Option<FlagKey>
    decreases t.len(),
{
    if t.len() == 0 {
        None
    } else if t[0].1 == Some(c) {
        Some(t[0])
    } else {
        find_short(t.drop_first(), c)
    }
}

/// A flag named `name` among the command's own flags, else among its
/// parent's.
pub open spec fn lookup_named(flags: Seq<FlagKey>, parent: Option<Seq<FlagKey>>, name: Seq<char>) -> Option<
    FlagKey,
> {
    match find_named(flags, name) {
        Some(f) => Some(f),
        None => match parent {
            Some(p) => find_named(p, name),
            None => None,
        },
    }
}

/// A flag with short name `c` among the command's own flags, else among
/// its parent's.
pub open spec fn lookup_short(flags: Seq<FlagKey>, parent: Option<Seq<FlagKey>>, c: char) -> Option<
    FlagKey,
> {
    match find_short(flags, c) {
        Some(f) => Some(f),
        None => match parent {
            Some(p) => find_short(p, c),
            None => None,
        },
    }
}

pub fn find_named_in(t: &[FlagSpec], name: &[char]) -> (r: Option<usize>)
    ensures
        match r {
            Some(i) => i < t@.len() && find_named(flag_keys(t@), name@) == Some(flag_key(t@[i as int])),
            None => find_named(flag_keys(t@), name@) is None,
        },
{
    let ghost k = flag_keys(t@);
    let mut i: usize = 0;
    assert(k.skip(0) =~= k);
    while i < t.len()
        invariant
            i <= t@.len(),
            k == flag_keys(t@),
            find_named(k, name@) == find_named(k.skip(i as int), name@),
        decreases t.len() - i,
    {
        let n = str_chars(t[i].name.as_str());
        assert(k.skip(i as int)[0] == flag_key(t@[i as int]));
        if chars_eq(&n, name) {
            return Some(i);
        }
        assert(k.skip(i as int).drop_first() =~= k.skip(i + 1));
        i = i + 1;
    }
    None
}

pub fn find_short_in(t: &[FlagSpec], c: char) -> (r: Option<usize>)
    ensures
        match r {
            Some(i) => i < t@.len() && find_short(flag_keys(t@), c) == Some(flag_key(t@[i as int])),
            None => find_short(flag_keys(t@), c) is None,
        },
{
    let ghost k = flag_keys(t@);
    let mut i: usize = 0;
    assert(k.skip(0) =~= k);
    while i < t.len()
        invariant
            i <= t@.len(),
            k == flag_keys(t@),
            find_short(k, c) == find_short(k.skip(i as int), c),
        decreases t.len() - i,
    {
        assert(k.skip(i as int)[0] == flag_key(t@[i as int]));
        let hit = match t[i].short {
            Some(s) => s == c,
            None => false,
        };
        if hit {
            return Some(i);
        }
        assert(k.skip(i as int).drop_first() =~= k.skip(i + 1));
        i = i + 1;
    }
    None
}

fn lookup_named_in<'b>(flags: &'b [FlagSpec], parent: Option<&'b [FlagSpec]>, name: &[char]) -> (r:
    Option<&'b FlagSpec>)
    ensures
        r matches Some(f) ==> lookup_named(
            flag_keys(flags@),
            match parent {
                Some(p) => Some(flag_keys(p@)),
                None => None,
            },
            name@,
        ) == Some(flag_key(*f)),
        r is None ==> lookup_named(
            flag_keys(flags@),
            match parent {
                Some(p) => Some(flag_keys(p@)),
                None => None,
            },
            name@,
        ) is None,
{
    match find_named_in(flags, name) {
        Some(i) => Some(&flags[i]),
        None => match parent {
            Some(p) => match find_named_in(p, name) {
                Some(j) => Some(&p[j]),
                None => None,
            },
            None => None,
        },
    }
}

fn lookup_short_in<'b>(flags: &'b [FlagSpec], parent: Option<&'b [FlagSpec]>, c: char) -> (r: Option<
    &'b FlagSpec,
>)
    ensures
        r matches Some(f) ==> lookup_short(
            flag_keys(flags@),
            match parent {
                Some(p) => Some(flag_keys(p@)),
                None => None,
            },
            c,
        ) == Some(flag_key(*f)),
        r is None ==> lookup_short(
            flag_keys(flags@),
            match parent {
                Some(p) => Some(flag_keys(p@)),
                None => None,
            },
            c,
        ) is None,
{
    match find_short_in(flags, c) {
        Some(i) => Some(&flags[i]),
        None => match parent {
            Some(p) => match find_short_in(p, c) {
                Some(j) => Some(&p[j]),
                None => None,
            },
            None => None,
        },
    }
}

// ---------------------------------------------------------------------------
// What parsing yields
// ---------------------------------------------------------------------------

/// Flag settings in the order they are made, and the arguments left over.
pub type Parsed = (Seq<(Seq<char>, Seq<char>)>, Seq<Seq<char>>);

/// Reads the short-flag cluster `cs` (the characters after `-` of
/// argument `i`) from position `idx`. Gives the settings so far, whether
/// the whole argument is handed on as unknown, and whether the next
/// argument was taken as a value; or the message of a rejected value.
pub open spec fn typed_cluster(
    args: Seq<Seq<char>>,
    i: int,
    cs: Seq<char>,
    idx: int,
    flags: Seq<FlagKey>,
    parent: Option<Seq<FlagKey>>,
    sets: Seq<(Seq<char>, Seq<char>)>,
) -> std::result::Result<(Seq<(Seq<char>, Seq<char>)>, bool, bool), Seq<char>>
    decreases cs.len() - idx,
{
    if idx < 0 || idx >= cs.len() {
        Ok((sets, false, false))
    } else if cs[idx] == 'h' {
        typed_cluster(args, i, cs, idx + 1, flags, parent, sets.push(("help"@, "true"@)))
    } else {
        match lookup_short(flags, parent, cs[idx]) {
            Some(f) => if f.2 != FlagType::Bool && idx == cs.len() - 1 && i + 1 < args.len()
                && !starts_dash(args[i + 1]) {
                if accepts(f.2, args[i + 1]) {
                    Ok((sets.push((f.0, args[i + 1])), false, true))
                } else {
                    Err(rejection_message(f.2, args[i + 1]))
                }
            } else {
                typed_cluster(args, i, cs, idx + 1, flags, parent, sets.push((f.0, "true"@)))
            },
            None => Ok((sets, true, false)),
        }
    }
}

/// Parses `args` from position `i`, given the settings and leftovers so
/// far. `--` ends flag parsing; `--help`, `-h` set `help`; `--name=value`
/// sets `name`; a known flag that does not take a boolean takes the next
/// argument as its value unless that starts with `-`; a known boolean
/// flag is set to `true`. Unknown flags are handed on. Values of known
/// flags must suit their type.
pub open spec fn typed_parse(
    args: Seq<Seq<char>>,
    i: int,
    flags: Seq<FlagKey>,
    parent: Option<Seq<FlagKey>>,
    sets: Seq<(Seq<char>, Seq<char>)>,
    rest: Seq<Seq<char>>,
) -> std::result::Result<Parsed, Seq<char>>
    decreases args.len() - i, 0int,
{
    if i < 0 || i >= args.len() {
        Ok((sets, rest))
    } else {
        let a = args[i];
        if is_separator(a) {
            Ok((sets, rest + args.skip(i + 1)))
        } else if is_long(a) {
            let body = a.skip(2);
            if body == "help"@ {
                typed_parse(args, i + 1, flags, parent, sets.push(("help"@, "true"@)), rest)
            } else {
                match first_pos(body, '=') {
                    Some(k) => {
                        let name = body.take(k);
                        let value = body.skip(k + 1);
                        match lookup_named(flags, parent, name) {
                            Some(f) if !accepts(f.2, value) => Err(
                                rejection_message(f.2, value),
                            ),
                            _ => typed_parse(
                                args,
                                i + 1,
                                flags,
                                parent,
                                sets.push((name, value)),
                                rest,
                            ),
                        }
                    },
                    None => match lookup_named(flags, parent, body) {
                        Some(f) => if f.2 != FlagType::Bool && i + 1 < args.len()
                            && !starts_dash(args[i + 1]) {
                            if accepts(f.2, args[i + 1]) {
                                typed_parse(
                                    args,
                                    i + 2,
                                    flags,
                                    parent,
                                    sets.push((body, args[i + 1])),
                                    rest,
                                )
                            } else {
                                Err(rejection_message(f.2, args[i + 1]))
                            }
                        } else {
                            typed_parse(args, i + 1, flags, parent, sets.push((body, "true"@)), rest)
                        },
                        None => typed_parse(args, i + 1, flags, parent, sets, rest.push(a)),
                    },
                }
            }
        } else if a.len() > 1 && a[0] == '-' {
            match typed_cluster(args, i, a.drop_first(), 0, flags, parent, sets) {
                Err(m) => Err(m),
                Ok((sets2, handed_on, took_next)) => typed_parse(
                    args,
                    if took_next && i + 2 <= args.len() {
                        i + 2
                    } else {
                        i + 1
                    },
                    flags,
                    parent,
                    sets2,
                    if handed_on {
                        rest.push(a)
                    } else {
                        rest
                    },
                ),
            }
        } else {
            typed_parse(args, i + 1, flags, parent, sets, rest.push(a))
        }
    }
}

/// The contents of a list of string slices.
pub open spec fn str_views(v: Seq<&str>) -> Seq<Seq<char>> {
    Seq::new(v.len(), |i: int| v[i]@)
}

/// The first `=` in `s`, searched from the front.
pub fn first_eq(s: &[char]) -> (r: Option<usize>)
    ensures
        match r {
            Some(k) => first_pos(s@, '=') == Some(k as int) && k < s@.len(),
            None => first_pos(s@, '=') is None,
        },
{
    let mut k: usize = 0;
    assert(s@.skip(0) =~= s@);
    while k < s.len()
        invariant
            k <= s@.len(),
            forall|j: int| 0 <= j < k ==> s@[j] != '=',
            first_pos(s@, '=') == match first_pos(s@.skip(k as int), '=') {
                Some(p) => Some(p + k),
                None => None,
            },
        decreases s.len() - k,
    {
        assert(s@.skip(k as int)[0] == s@[k as int]);
        if s[k] == '=' {
            return Some(k);
        }
        assert(s@.skip(k as int).drop_first() =~= s@.skip(k + 1));
        k = k + 1;
    }
    None
}

pub fn sub_chars(s: &[char], lo: usize, hi: usize) -> (r: Vec<char>)
    requires
        lo <= hi <= s@.len(),
    ensures
        r@ == s@.subrange(lo as int, hi as int),
{
    let mut v: Vec<char> = Vec::new();
    let mut i = lo;
    while i < hi
        invariant
            lo <= i <= hi <= s@.len(),
            v@ == s@.subrange(lo as int, i as int),
        decreases hi - i,
    {
        v.push(s[i]);
        assert(s@.subrange(lo as int, i + 1) =~= s@.subrange(lo as int, i as int).push(s@[i as int]));
        i = i + 1;
    }
    v
}

fn starts_with_dash(s: &str) -> (r: bool)
    ensures
        r == starts_dash(s@),
{
    let c = str_chars(s);
    c.len() > 0 && c[0] == '-'
}

/// Parses `args` against a command's flags and its parent's (see
/// [`typed_parse`]). Returns the flag values by name and the arguments left
/// over, borrowed from `args`; or the error for the first flag value that
/// does not suit its flag's type.
pub fn parse_flags_optimized<'a>(
    args: &'a [String],
    flags: &[FlagSpec],
    parent_flags: Option<&[FlagSpec]>,
) -> (r: Result<(FlagMap, Vec<&'a str>)>)
    ensures
        match typed_parse(
            string_views(args@),
            0,
            flag_keys(flags@),
            match parent_flags {
                Some(p) => Some(flag_keys(p@)),
                None => None,
            },
            Seq::empty(),
            Seq::empty(),
        ) {
            Ok((sets, rest)) => r matches Ok((m, v)) && m.spec_map() == keyed_map(sets) && str_views(
                v@,
            ) == rest,
            Err(msg) => r matches Err(e) && e matches Error::FlagParsing {
                message,
                flag: None,
                suggestions,
            } && message@ == msg && suggestions@.len() == 0,
        },
{
    let ghost av = string_views(args@);
    let ghost pf = match parent_flags {
        Some(p) => Some(flag_keys(p@)),
        None => None,
    };
    let ghost fk = flag_keys(flags@);
    let mut parsed = FlagMap::new();
    let mut remaining: Vec<&'a str> = Vec::new();
    let ghost mut sets: Seq<(Seq<char>, Seq<char>)> = Seq::empty();
    let mut i: usize = 0;
    assert(keyed_map(sets) =~= parsed.spec_map());
    assert(str_views(remaining@) =~= Seq::<Seq<char>>::empty());
    while i < args.len()
        invariant
            i <= args@.len(),
            av == string_views(args@),
            pf == match parent_flags {
                Some(p) => Some(flag_keys(p@)),
                None => None,
            },
            fk == flag_keys(flags@),
            parsed.spec_map() == keyed_map(sets),
            typed_parse(av, 0, fk, pf, Seq::empty(), Seq::empty()) == typed_parse(
                av,
                i as int,
                fk,
                pf,
                sets,
                str_views(remaining@),
            ),
        decreases args.len() - i,
    {
        let arg = args[i].as_str();
        let a = str_chars(arg);
        assert(av[i as int] == a@);
        let ghost rest0 = str_views(remaining@);
        if a.len() == 2 && a[0] == '-' && a[1] == '-' {
            let mut j = i + 1;
            while j < args.len()
                invariant
                    i + 1 <= j <= args@.len(),
                    av == string_views(args@),
                    str_views(remaining@) == rest0 + av.subrange(i + 1, j as int),
                decreases args.len() - j,
            {
                let ghost before = str_views(remaining@);
                remaining.push(args[j].as_str());
                assert(str_views(remaining@) =~= before.push(av[j as int]));
                assert(av.subrange(i + 1, j + 1) =~= av.subrange(i + 1, j as int).push(av[j as int]));
                j = j + 1;
            }
            assert(av.subrange(i + 1, j as int) =~= av.skip(i + 1));
            return Ok((parsed, remaining));
        } else if a.len() >= 2 && a[0] == '-' && a[1] == '-' {
            let body = sub_chars(&a, 2, a.len());
            assert(body@ =~= a@.skip(2));
            let help = str_chars("help");
            if chars_eq(&body, &help) {
                parsed.insert(to_owned_string("help"), to_owned_string("true"));
                proof {
                    lemma_keyed_push(sets, ("help"@, "true"@));
                    sets = sets.push(("help"@, "true"@));
                }
                i = i + 1;
            } else {
                match first_eq(&body) {
                    Some(k) => {
                        proof {
                            assert(first_pos(body@, '=') == Some(k as int));
                        }
                        let name = sub_chars(&body, 0, k);
                        let value = sub_chars(&body, k + 1, body.len());
                        assert(name@ =~= body@.take(k as int));
                        assert(value@ =~= body@.skip(k + 1));
                        let vs = string_from_chars(&value);
                        match lookup_named_in(flags, parent_flags, &name) {
                            Some(f) => {
                                let checked = check_value(f.value_type, vs.as_str());
                                match checked {
                                    Err(e) => {
                                        return Err(e);
                                    },
                                    Ok(()) => {},
                                }
                            },
                            None => {},
                        }
                        parsed.insert(string_from_chars(&name), vs);
                        proof {
                            lemma_keyed_push(sets, (name@, value@));
                            sets = sets.push((name@, value@));
                        }
                        i = i + 1;
                    },
                    None => {
                        match lookup_named_in(flags, parent_flags, &body) {
                            Some(f) => {
                                if f.value_type != FlagType::Bool && i + 1 < args.len()
                                    && !starts_with_dash(args[i + 1].as_str()) {
                                    assert(av[i + 1] == args@[i + 1]@);
                                    let checked = check_value(f.value_type, args[i + 1].as_str());
                                    match checked {
                                        Err(e) => {
                                            return Err(e);
                                        },
                                        Ok(()) => {},
                                    }
                                    parsed.insert(
                                        string_from_chars(&body),
                                        to_owned_string(args[i + 1].as_str()),
                                    );
                                    proof {
                                        lemma_keyed_push(sets, (body@, av[i + 1]));
                                        sets = sets.push((body@, av[i + 1]));
                                    }
                                    i = i + 2;
                                } else {
                                    parsed.insert(string_from_chars(&body), to_owned_string("true"));
                                    proof {
                                        lemma_keyed_push(sets, (body@, "true"@));
                                        sets = sets.push((body@, "true"@));
                                    }
                                    i = i + 1;
                                }
                            },
                            None => {
                                remaining.push(arg);
                                assert(str_views(remaining@) =~= rest0.push(a@));
                                i = i + 1;
                            },
                        }
                    },
                }
            }
        } else if a.len() > 1 && a[0] == '-' {
            let cs = sub_chars(&a, 1, a.len());
            assert(cs@ =~= a@.drop_first());
            let ghost sets0 = sets;
            let mut idx: usize = 0;
            let mut handed_on = false;
            let mut took_next = false;
            let has_next = i + 1 < args.len();
            let next_i = i + 1;
            while idx < cs.len()
                invariant_except_break
                    !handed_on && !took_next,
                    typed_cluster(av, i as int, cs@, 0, fk, pf, sets0) == typed_cluster(
                        av,
                        i as int,
                        cs@,
                        idx as int,
                        fk,
                        pf,
                        sets,
                    ),
                invariant
                    idx <= cs@.len(),
                    i < args@.len(),
                    av == string_views(args@),
                    pf == match parent_flags {
                        Some(p) => Some(flag_keys(p@)),
                        None => None,
                    },
                    fk == flag_keys(flags@),
                    parsed.spec_map() == keyed_map(sets),
                    has_next == (i + 1 < args@.len()),
                    next_i == i + 1,
                    rest0 == str_views(remaining@),
                    cs@ == av[i as int].drop_first(),
                    av[i as int].len() > 1 && av[i as int][0] == '-' && !is_long(av[i as int]),
                    typed_parse(av, 0, fk, pf, Seq::empty(), Seq::empty()) == typed_parse(
                        av,
                        i as int,
                        fk,
                        pf,
                        sets0,
                        rest0,
                    ),
                ensures
                    parsed.spec_map() == keyed_map(sets),
                    typed_cluster(av, i as int, cs@, 0, fk, pf, sets0) == Ok::<
                        (Seq<(Seq<char>, Seq<char>)>, bool, bool),
                        Seq<char>,
                    >((sets, handed_on, took_next)),
                    took_next ==> i + 1 < args@.len(),
                decreases cs.len() - idx,
            {
                let ch = cs[idx];
                if ch == 'h' {
                    parsed.insert(to_owned_string("help"), to_owned_string("true"));
                    proof {
                        lemma_keyed_push(sets, ("help"@, "true"@));
                        sets = sets.push(("help"@, "true"@));
                    }
                    idx = idx + 1;
                } else {
                    match lookup_short_in(flags, parent_flags, ch) {
                        Some(f) => {
                            let last = idx + 1 == cs.len();
                            if f.value_type != FlagType::Bool && last && has_next
                                && !starts_with_dash(args[next_i].as_str()) {
                                assert(av[i + 1] == args@[i + 1]@);
                                let checked = check_value(f.value_type, args[next_i].as_str());
                                match checked {
                                    Err(e) => {
                                        return Err(e);
                                    },
                                    Ok(()) => {},
                                }
                                parsed.insert(
                                    f.name.clone(),
                                    to_owned_string(args[next_i].as_str()),
                                );
                                proof {
                                    lemma_keyed_push(sets, (f.name@, av[i + 1]));
                                    sets = sets.push((f.name@, av[i + 1]));
                                }
                                took_next = true;
                                break;
                            } else {
                                parsed.insert(f.name.clone(), to_owned_string("true"));
                                proof {
                                    lemma_keyed_push(sets, (f.name@, "true"@));
                                    sets = sets.push((f.name@, "true"@));
                                }
                                idx = idx + 1;
                            }
                        },
                        None => {
                            handed_on = true;
                            break;
                        },
                    }
                }
            }
            if handed_on {
                remaining.push(arg);
                assert(str_views(remaining@) =~= rest0.push(a@));
            }
            i = if took_next { i + 2 } else { i + 1 };
        } else {
            remaining.push(arg);
            assert(str_views(remaining@) =~= rest0.push(a@));
            i = i + 1;
        }
    }
    Ok((parsed, remaining))
}

/// The arguments as string slices, in order.
pub fn parse_flags_borrowed(args: &[String]) -> (r: Vec<&str>)
    ensures
        str_views(r@) == string_views(args@),
{
    let mut r: Vec<&str> = Vec::new();
    let mut i: usize = 0;
    while i < args.len()
        invariant
            i <= args@.len(),
            str_views(r@) == string_views(args@).take(i as int),
        decreases args.len() - i,
    {
        let ghost before = str_views(r@);
        r.push(args[i].as_str());
        assert(str_views(r@) =~= before.push(args@[i as int]@));
        assert(string_views(args@).take(i + 1) =~= string_views(args@).take(i as int).push(
            args@[i as int]@,
        ));
        i = i + 1;
    }
    assert(string_views(args@).take(i as int) =~= string_views(args@));
    r
}

} // verus!
