//! The help text of a command: usage, subcommands and flags.

use vstd::prelude::*;
use crate::color::{painted, push_painted, Style};
use crate::command::Command;
use crate::completion_format::{pad_to, push_padded};
use crate::flag::{FlagSpec, FlagType};
use crate::suggestion::{lex_le, lex_le_exec};
use crate::text::{push_slice, push_str_chars, str_chars, string_from_chars};

verus! {

// ---------------------------------------------------------------------------
// Ordering by name
// ---------------------------------------------------------------------------

/// `a` sorts strictly before `b`.
pub open spec fn lex_lt(a: Seq<char>, b: Seq<char>) -> bool {
    !lex_le(b, a)
}

/// `order` with position `j` inserted before the first entry whose name
/// sorts after `names[j]`.
pub open spec fn insert_by_name(names: Seq<Seq<char>>, order: Seq<int>, j: int) -> Seq<int>
    decreases order.len(),
{
    if order.len() == 0 {
        seq![j]
    } else if lex_lt(names[j], names[order[0]]) {
        seq![j] + order
    } else {
        seq![order[0]] + insert_by_name(names, order.drop_first(), j)
    }
}

/// The positions `0..n` of `names` in name order, equal names keeping
/// their order (a stable sort).
pub open spec fn name_order(names: Seq<Seq<char>>, n: nat) -> Seq<int>
    decreases n,
{
    if n == 0 {
        Seq::empty()
    } else {
        insert_by_name(names, name_order(names, (n - 1) as nat), n - 1)
    }
}

proof fn lemma_insert_by_name(names: Seq<Seq<char>>, order: Seq<int>, j: int, p: int)
    requires
        0 <= p <= order.len(),
        forall|q: int| 0 <= q < p ==> !lex_lt(names[j], #[trigger] names[order[q]]),
        p < order.len() ==> lex_lt(names[j], names[order[p]]),
    ensures
        insert_by_name(names, order, j) == order.insert(p, j),
    decreases order.len(),
{
    if order.len() == 0 {
        assert(order.insert(p, j) =~= seq![j]);
    } else if p == 0 {
        assert(order.insert(0, j) =~= seq![j] + order);
    } else {
        assert(!lex_lt(names[j], names[order[0]]));
        let rest = order.drop_first();
        assert forall|q: int| 0 <= q < p - 1 implies !lex_lt(names[j], #[trigger] names[rest[q]]) by {
            assert(rest[q] == order[q + 1]);
        }
        if p < order.len() {
            assert(rest[p - 1] == order[p]);
        }
        lemma_insert_by_name(names, rest, j, p - 1);
        assert(order.insert(p, j) =~= seq![order[0]] + rest.insert(p - 1, j));
    }
}

proof fn lemma_name_order_len(names: Seq<Seq<char>>, n: nat)
    ensures
        name_order(names, n).len() == n,
        forall|i: int| 0 <= i < n ==> 0 <= #[trigger] name_order(names, n)[i] < n,
    decreases n,
{
    if n > 0 {
        lemma_name_order_len(names, (n - 1) as nat);
        lemma_insert_len(names, name_order(names, (n - 1) as nat), n - 1, n as int);
    }
}

proof fn lemma_insert_len(names: Seq<Seq<char>>, order: Seq<int>, j: int, bound: int)
    requires
        0 <= j < bound,
        forall|i: int| 0 <= i < order.len() ==> 0 <= #[trigger] order[i] < bound,
    ensures
        insert_by_name(names, order, j).len() == order.len() + 1,
        forall|i: int|
            0 <= i < order.len() + 1 ==> 0 <= #[trigger] insert_by_name(names, order, j)[i] < bound,
    decreases order.len(),
{
    if order.len() > 0 && !lex_lt(names[j], names[order[0]]) {
        let rest = order.drop_first();
        assert forall|i: int| 0 <= i < rest.len() implies 0 <= #[trigger] rest[i] < bound by {
            assert(rest[i] == order[i + 1]);
        }
        lemma_insert_len(names, rest, j, bound);
        let r = insert_by_name(names, order, j);
        assert forall|i: int| 0 <= i < order.len() + 1 implies 0 <= #[trigger] r[i] < bound by {
            if i > 0 {
                assert(r[i] == insert_by_name(names, rest, j)[i - 1]);
            }
        }
    }
}

/// The positions of `names` in name order.
fn order_by_name(names: &Vec<Vec<char>>) -> (order: Vec<usize>)
    ensures
        order@.len() == names@.len(),
        forall|i: int| 0 <= i < order@.len() ==> #[trigger] order@[i] < names@.len(),
        forall|i: int|
            0 <= i < order@.len() ==> order@[i] as int == name_order(
                crate::suggestion::char_views(names@),
                names@.len(),
            )[i],
{
    let ghost nv = crate::suggestion::char_views(names@);
    let mut order: Vec<usize> = Vec::new();
    let mut j: usize = 0;
    while j < names.len()
        invariant
            j <= names@.len(),
            nv == crate::suggestion::char_views(names@),
            order@.len() == j,
            forall|i: int| 0 <= i < j ==> #[trigger] order@[i] < j,
            forall|i: int| 0 <= i < j ==> order@[i] as int == name_order(nv, j as nat)[i],
        decreases names.len() - j,
    {
        let ghost before = order@;
        let ghost ord_int = name_order(nv, j as nat);
        proof {
            lemma_name_order_len(nv, j as nat);
        }
        assert(ord_int =~= Seq::new(before.len(), |i: int| before[i] as int));
        let mut p: usize = 0;
        while p < order.len()
            invariant
                p <= order@.len(),
                order@ == before,
                j < names@.len(),
                forall|i: int| 0 <= i < before.len() ==> #[trigger] before[i] < j,
                forall|q: int|
                    0 <= q < p ==> !lex_lt(nv[j as int], #[trigger] nv[before[q] as int]),
                nv == crate::suggestion::char_views(names@),
            ensures
                p <= order@.len(),
                order@ == before,
                forall|q: int|
                    0 <= q < p ==> !lex_lt(nv[j as int], #[trigger] nv[before[q] as int]),
                p < order@.len() ==> lex_lt(nv[j as int], nv[before[p as int] as int]),
            decreases order.len() - p,
        {
            let k = order[p];
            let le = lex_le_exec(&names[k], &names[j]);
            if !le {
                break;
            }
            p = p + 1;
        }
        proof {
            lemma_name_order_len(nv, j as nat);
            assert forall|q: int| 0 <= q < p implies !lex_lt(nv[j as int], #[trigger] nv[ord_int[q]]) by {
                assert(ord_int[q] == before[q] as int);
            }
            if p < before.len() {
                assert(ord_int[p as int] == before[p as int] as int);
            }
            lemma_insert_by_name(nv, ord_int, j as int, p as int);
        }
        order.insert(p, j);
        proof {
            let next = name_order(nv, (j + 1) as nat);
            assert(next == insert_by_name(nv, ord_int, j as int));
            assert(next == ord_int.insert(p as int, j as int));
            assert forall|i: int| 0 <= i < j + 1 implies order@[i] as int == next[i] by {
                if i < p {
                    assert(order@[i] == before[i]);
                } else if i == p {
                } else {
                    assert(order@[i] == before[i - 1]);
                }
            }
        }
        j = j + 1;
    }
    order
}

// ---------------------------------------------------------------------------
// Help text
// ---------------------------------------------------------------------------

/// The type word shown after a flag's name.
pub open spec fn type_suffix(t: FlagType) -> Seq<char> {
    match t {
        FlagType::String => " string"@,
        FlagType::Int => " int"@,
        FlagType::Float => " float"@,
        FlagType::Bool => ""@,
        FlagType::StringSlice => " strings"@,
    }
}

/// The `-x, ` part of a flag line (four spaces without a short name).
pub open spec fn short_part(f: FlagSpec) -> Seq<char> {
    match f.short {
        Some(c) => seq!['-', c] + ", "@,
        None => "    "@,
    }
}

/// The ` (default ...)` part of a flag line.
pub open spec fn default_part(f: FlagSpec) -> Seq<char> {
    match f.default_text {
        Some(t) => " (default "@ + t@ + ")"@,
        None => ""@,
    }
}

/// One line of the flag list.
pub open spec fn flag_line(f: FlagSpec, c: bool) -> Seq<char> {
    "      "@ + painted("\x1b[36m"@, short_part(f), c) + "--"@ + pad_to(
        painted("\x1b[36m"@, f.name@ + type_suffix(f.value_type), c),
        15,
    ) + "  "@ + f.usage@ + painted("\x1b[2m"@, default_part(f), c) + "\n"@
}

/// The names of some flags.
pub open spec fn flag_names(fs: Seq<FlagSpec>) -> Seq<Seq<char>> {
    Seq::new(fs.len(), |i: int| fs[i].name@)
}

/// The lines of `fs` taken in `order`.
pub open spec fn flag_lines(fs: Seq<FlagSpec>, order: Seq<int>, c: bool) -> Seq<char>
    decreases order.len(),
{
    if order.len() == 0 {
        Seq::empty()
    } else {
        flag_lines(fs, order.drop_last(), c) + flag_line(fs[order.last()], c)
    }
}

/// The flags sorted by name, one line each.
pub open spec fn sorted_flag_lines(fs: Seq<FlagSpec>, c: bool) -> Seq<char> {
    flag_lines(fs, name_order(flag_names(fs), fs.len()), c)
}

/// One line of the subcommand list.
pub open spec fn command_line(cmd: Command, c: bool) -> Seq<char> {
    "  "@ + pad_to(painted("\x1b[32m"@, cmd.spec_name(), c), 20) + " "@ + cmd.spec_short() + "\n"@
}

/// The names of some commands.
pub open spec fn command_names(cs: Seq<Command>) -> Seq<Seq<char>> {
    Seq::new(cs.len(), |i: int| cs[i].spec_name())
}

/// The lines of `cs` taken in `order`.
pub open spec fn command_lines(cs: Seq<Command>, order: Seq<int>, c: bool) -> Seq<char>
    decreases order.len(),
{
    if order.len() == 0 {
        Seq::empty()
    } else {
        command_lines(cs, order.drop_last(), c) + command_line(cs[order.last()], c)
    }
}

/// The description and usage line of a help text.
pub open spec fn usage_part(cmd: Command, c: bool) -> Seq<char> {
    cmd.spec_long() + "\n\n"@ + painted("\x1b[1m"@, "Usage"@, c) + ":\n  "@ + cmd.spec_name() + (
    if cmd.spec_flags().len() > 0 {
        " "@ + painted("\x1b[33m"@, "[flags]"@, c)
    } else {
        ""@
    }) + (if cmd.spec_subcommands().len() > 0 {
        " "@ + painted("\x1b[33m"@, "[command]"@, c)
    } else {
        ""@
    }) + "\n\n"@
}

/// The subcommand list of a help text, sorted by name.
pub open spec fn commands_part(cmd: Command, c: bool) -> Seq<char> {
    let subs = cmd.spec_subcommands();
    if subs.len() > 0 {
        painted("\x1b[1m"@, "Available Commands"@, c) + ":\n"@ + command_lines(
            subs,
            name_order(command_names(subs), subs.len()),
            c,
        ) + "\n"@
    } else {
        ""@
    }
}

/// The flag list of a help text, sorted by name.
pub open spec fn flags_part(cmd: Command, has_parent: bool, c: bool) -> Seq<char> {
    if cmd.spec_flags().len() > 0 || has_parent {
        painted("\x1b[1m"@, "Flags"@, c) + ":\n"@ + sorted_flag_lines(cmd.spec_flags(), c)
    } else {
        ""@
    }
}

/// The parent's flags, listed as global flags.
pub open spec fn globals_part(parent: Option<Seq<FlagSpec>>, c: bool) -> Seq<char> {
    match parent {
        Some(pf) => if pf.len() > 0 {
            "\n"@ + painted("\x1b[1m"@, "Global Flags"@, c) + ":\n"@ + sorted_flag_lines(pf, c)
        } else {
            ""@
        },
        None => ""@,
    }
}

/// The closing hint of a help text.
pub open spec fn closing_part(cmd: Command, c: bool) -> Seq<char> {
    "\nUse \""@ + cmd.spec_name() + " "@ + painted("\x1b[33m"@, "[command]"@, c)
        + " --help\" for more information about a command.\n"@
}

/// The help text of `cmd`, whose parent's flags are `parent` when it has a
/// parent: the long description, the usage line, the subcommands and the
/// flags sorted by name, the parent's flags as global flags, and a closing
/// hint. Styled when `c`.
pub open spec fn help_spec(cmd: Command, parent: Option<Seq<FlagSpec>>, c: bool) -> Seq<char> {
    usage_part(cmd, c) + commands_part(cmd, c) + flags_part(cmd, parent is Some, c) + globals_part(
        parent,
        c,
    ) + closing_part(cmd, c)
}

fn short_part_exec(f: &FlagSpec) -> (r: String)
    ensures
        r@ == short_part(*f),
{
    let mut sp: Vec<char> = Vec::new();
    match f.short {
        Some(ch) => {
            sp.push('-');
            sp.push(ch);
            push_str_chars(&mut sp, ", ");
            assert(sp@ =~= seq!['-', ch] + ", "@);
        },
        None => {
            push_str_chars(&mut sp, "    ");
            assert(sp@ =~= "    "@);
        },
    }
    string_from_chars(&sp)
}

fn typed_name_exec(f: &FlagSpec) -> (r: String)
    ensures
        r@ == f.name@ + type_suffix(f.value_type),
{
    let mut nm = str_chars(f.name.as_str());
    match f.value_type {
        FlagType::String => push_str_chars(&mut nm, " string"),
        FlagType::Int => push_str_chars(&mut nm, " int"),
        FlagType::Float => push_str_chars(&mut nm, " float"),
        FlagType::Bool => push_str_chars(&mut nm, ""),
        FlagType::StringSlice => push_str_chars(&mut nm, " strings"),
    }
    string_from_chars(&nm)
}

fn default_part_exec(f: &FlagSpec) -> (r: String)
    ensures
        r@ == default_part(*f),
{
    let mut dp: Vec<char> = Vec::new();
    match &f.default_text {
        Some(t) => {
            push_str_chars(&mut dp, " (default ");
            push_str_chars(&mut dp, t.as_str());
            push_str_chars(&mut dp, ")");
            assert(dp@ =~= " (default "@ + t@ + ")"@);
        },
        None => {
            push_str_chars(&mut dp, "");
            assert(dp@ =~= ""@);
        },
    }
    string_from_chars(&dp)
}

fn push_flag_line(out: &mut Vec<char>, f: &FlagSpec, c: bool)
    ensures
        final(out)@ == old(out)@ + flag_line(*f, c),
{
    let ghost start = out@;
    push_str_chars(out, "      ");
    let sps = short_part_exec(f);
    push_painted(out, &Style::cyan(), sps.as_str(), c);
    push_str_chars(out, "--");
    let ghost mid = out@;
    let nms = typed_name_exec(f);
    let painted_name = Style::cyan().paint(nms.as_str(), c);
    let pn = str_chars(painted_name.as_str());
    push_padded(out, &pn, 15);
    push_str_chars(out, "  ");
    push_str_chars(out, f.usage.as_str());
    let dps = default_part_exec(f);
    push_painted(out, &Style::dim(), dps.as_str(), c);
    push_str_chars(out, "\n");
    assert(mid =~= start + "      "@ + painted("\x1b[36m"@, short_part(*f), c) + "--"@);
    assert(out@ =~= mid + pad_to(painted("\x1b[36m"@, f.name@ + type_suffix(f.value_type), c), 15)
        + "  "@ + f.usage@ + painted("\x1b[2m"@, default_part(*f), c) + "\n"@);
}

fn push_sorted_flag_lines(out: &mut Vec<char>, fs: &Vec<FlagSpec>, c: bool)
    ensures
        final(out)@ == old(out)@ + sorted_flag_lines(fs@, c),
{
    let mut names: Vec<Vec<char>> = Vec::new();
    let mut i: usize = 0;
    while i < fs.len()
        invariant
            i <= fs@.len(),
            crate::suggestion::char_views(names@) =~= flag_names(fs@).take(i as int),
        decreases fs.len() - i,
    {
        let ghost b = crate::suggestion::char_views(names@);
        names.push(str_chars(fs[i].name.as_str()));
        assert(crate::suggestion::char_views(names@) =~= b.push(fs@[i as int].name@));
        assert(flag_names(fs@).take(i + 1) =~= flag_names(fs@).take(i as int).push(fs@[i as int].name@));
        i = i + 1;
    }
    assert(flag_names(fs@).take(i as int) =~= flag_names(fs@));
    let order = order_by_name(&names);
    let ghost ord = name_order(flag_names(fs@), fs@.len());
    proof {
        lemma_name_order_len(flag_names(fs@), fs@.len());
    }
    let ghost start = out@;
    let mut k: usize = 0;
    assert(ord.take(0) =~= Seq::<int>::empty());
    while k < order.len()
        invariant
            k <= order@.len(),
            order@.len() == fs@.len(),
            ord.len() == fs@.len(),
            forall|q: int| 0 <= q < order@.len() ==> #[trigger] order@[q] < fs@.len(),
            forall|q: int| 0 <= q < order@.len() ==> order@[q] as int == #[trigger] ord[q],
            out@ == start + flag_lines(fs@, ord.take(k as int), c),
        decreases order.len() - k,
    {
        let idx = order[k];
        push_flag_line(out, &fs[idx], c);
        assert(ord.take(k + 1).drop_last() =~= ord.take(k as int));
        assert(ord.take(k + 1).last() == ord[k as int]);
        assert(ord[k as int] == idx as int);
        k = k + 1;
    }
    assert(ord.take(k as int) =~= ord);
}

fn push_command_line(out: &mut Vec<char>, cmd: &Command, c: bool)
    ensures
        final(out)@ == old(out)@ + command_line(*cmd, c),
{
    push_str_chars(out, "  ");
    let g = Style::green().paint(cmd.name(), c);
    let gc = str_chars(g.as_str());
    push_padded(out, &gc, 20);
    push_str_chars(out, " ");
    push_str_chars(out, cmd.short());
    push_str_chars(out, "\n");
    assert(final(out)@ =~= old(out)@ + command_line(*cmd, c));
}

fn push_sorted_command_lines(out: &mut Vec<char>, cs: &Vec<Command>, c: bool)
    ensures
        final(out)@ == old(out)@ + command_lines(cs@, name_order(command_names(cs@), cs@.len()), c),
{
    let mut names: Vec<Vec<char>> = Vec::new();
    let mut i: usize = 0;
    while i < cs.len()
        invariant
            i <= cs@.len(),
            crate::suggestion::char_views(names@) =~= command_names(cs@).take(i as int),
        decreases cs.len() - i,
    {
        let ghost b = crate::suggestion::char_views(names@);
        names.push(str_chars(cs[i].name()));
        assert(crate::suggestion::char_views(names@) =~= b.push(cs@[i as int].spec_name()));
        assert(command_names(cs@).take(i + 1) =~= command_names(cs@).take(i as int).push(
            cs@[i as int].spec_name(),
        ));
        i = i + 1;
    }
    assert(command_names(cs@).take(i as int) =~= command_names(cs@));
    let order = order_by_name(&names);
    let ghost ord = name_order(command_names(cs@), cs@.len());
    proof {
        lemma_name_order_len(command_names(cs@), cs@.len());
    }
    let ghost start = out@;
    let mut k: usize = 0;
    assert(ord.take(0) =~= Seq::<int>::empty());
    while k < order.len()
        invariant
            k <= order@.len(),
            order@.len() == cs@.len(),
            ord.len() == cs@.len(),
            forall|q: int| 0 <= q < order@.len() ==> #[trigger] order@[q] < cs@.len(),
            forall|q: int| 0 <= q < order@.len() ==> order@[q] as int == #[trigger] ord[q],
            out@ == start + command_lines(cs@, ord.take(k as int), c),
        decreases order.len() - k,
    {
        let idx = order[k];
        push_command_line(out, &cs[idx], c);
        assert(ord.take(k + 1).drop_last() =~= ord.take(k as int));
        assert(ord.take(k + 1).last() == ord[k as int]);
        assert(ord[k as int] == idx as int);
        k = k + 1;
    }
    assert(ord.take(k as int) =~= ord);
}

fn usage_exec(cmd: &Command, c: bool) -> (r: Vec<char>)
    ensures
        r@ == usage_part(*cmd, c),
{
    let mut out = str_chars(cmd.long());
    push_str_chars(&mut out, "\n\n");
    push_painted(&mut out, &Style::bold(), "Usage", c);
    push_str_chars(&mut out, ":\n  ");
    push_str_chars(&mut out, cmd.name());
    if cmd.flags().len() > 0 {
        push_str_chars(&mut out, " ");
        push_painted(&mut out, &Style::yellow(), "[flags]", c);
    } else {
        push_str_chars(&mut out, "");
    }
    if cmd.subcommands().len() > 0 {
        push_str_chars(&mut out, " ");
        push_painted(&mut out, &Style::yellow(), "[command]", c);
    } else {
        push_str_chars(&mut out, "");
    }
    push_str_chars(&mut out, "\n\n");
    assert(out@ =~= usage_part(*cmd, c));
    out
}

fn commands_exec(cmd: &Command, c: bool) -> (r: Vec<char>)
    ensures
        r@ == commands_part(*cmd, c),
{
    let mut out: Vec<char> = Vec::new();
    let subs = cmd.subcommands();
    if subs.len() > 0 {
        push_painted(&mut out, &Style::bold(), "Available Commands", c);
        push_str_chars(&mut out, ":\n");
        push_sorted_command_lines(&mut out, subs, c);
        push_str_chars(&mut out, "\n");
    } else {
        push_str_chars(&mut out, "");
    }
    assert(out@ =~= commands_part(*cmd, c));
    out
}

fn flags_exec(cmd: &Command, has_parent: bool, c: bool) -> (r: Vec<char>)
    ensures
        r@ == flags_part(*cmd, has_parent, c),
{
    let mut out: Vec<char> = Vec::new();
    let fs = cmd.flags();
    if fs.len() > 0 || has_parent {
        push_painted(&mut out, &Style::bold(), "Flags", c);
        push_str_chars(&mut out, ":\n");
        push_sorted_flag_lines(&mut out, fs, c);
    } else {
        push_str_chars(&mut out, "");
    }
    assert(out@ =~= flags_part(*cmd, has_parent, c));
    out
}

fn globals_exec(parent_flags: Option<&Vec<FlagSpec>>, c: bool) -> (r: Vec<char>)
    ensures
        r@ == globals_part(
            match parent_flags {
                Some(p) => Some(p@),
                None => None,
            },
            c,
        ),
{
    let mut out: Vec<char> = Vec::new();
    match parent_flags {
        Some(pf) => {
            if pf.len() > 0 {
                push_str_chars(&mut out, "\n");
                push_painted(&mut out, &Style::bold(), "Global Flags", c);
                push_str_chars(&mut out, ":\n");
                push_sorted_flag_lines(&mut out, pf, c);
            } else {
                push_str_chars(&mut out, "");
            }
        },
        None => {
            push_str_chars(&mut out, "");
        },
    }
    proof {
        let g = globals_part(
            match parent_flags {
                Some(p) => Some(p@),
                None => None,
            },
            c,
        );
        assert(out@ =~= g);
    }
    out
}

fn closing_exec(cmd: &Command, c: bool) -> (r: Vec<char>)
    ensures
        r@ == closing_part(*cmd, c),
{
    let mut out = str_chars("\nUse \"");
    push_str_chars(&mut out, cmd.name());
    push_str_chars(&mut out, " ");
    push_painted(&mut out, &Style::yellow(), "[command]", c);
    push_str_chars(&mut out, " --help\" for more information about a command.\n");
    assert(out@ =~= closing_part(*cmd, c));
    out
}

/// The help text of `cmd` (see [`help_spec`]); `parent_flags` are the
/// flags of its parent when it has one.
pub fn help_text(cmd: &Command, parent_flags: Option<&Vec<FlagSpec>>, colorize: bool) -> (r: String)
    ensures
        r@ == help_spec(
            *cmd,
            match parent_flags {
                Some(p) => Some(p@),
                None => None,
            },
            colorize,
        ),
{
    let mut out = usage_exec(cmd, colorize);
    let a = commands_exec(cmd, colorize);
    push_slice(&mut out, &a);
    let b = flags_exec(cmd, parent_flags.is_some(), colorize);
    push_slice(&mut out, &b);
    let g = globals_exec(parent_flags, colorize);
    push_slice(&mut out, &g);
    let e = closing_exec(cmd, colorize);
    push_slice(&mut out, &e);
    string_from_chars(&out)
}

} // verus!
