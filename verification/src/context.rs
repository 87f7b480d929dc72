//! The context a command runs in: its remaining arguments, the flag values
//! parsed so far, and typed values shared between commands.

use vstd::prelude::*;
use crate::text::{
    ascii_lower, ascii_lower_chars, chars_eq, parse_i64, parse_i64_spec, str_chars, str_eq,
};

verus! {

// ---------------------------------------------------------------------------
// Flag values by name
// ---------------------------------------------------------------------------

/// The map a sequence of (name, value) pairs describes, later pairs winning.
pub open spec fn pairs_map(e: Seq<(String, String)>) -> Map<Seq<char>, Seq<char>>
    decreases e.len(),
{
    if e.len() == 0 {
        Map::empty()
    } else {
        pairs_map(e.drop_last()).insert(e.last().0@, e.last().1@)
    }
}

/// No name occurs twice.
pub open spec fn unique_names(e: Seq<(String, String)>) -> bool {
    forall|i: int, j: int| 0 <= i < j < e.len() ==> e[i].0@ != e[j].0@
}

pub proof fn lemma_pairs_map_lookup(e: Seq<(String, String)>, i: int)
    requires
        unique_names(e),
        0 <= i < e.len(),
    ensures
        pairs_map(e).contains_key(e[i].0@),
        pairs_map(e)[e[i].0@] == e[i].1@,
    decreases e.len(),
{
    if i < e.len() - 1 {
        lemma_pairs_map_lookup(e.drop_last(), i);
    }
}

pub proof fn lemma_pairs_map_absent(e: Seq<(String, String)>, k: Seq<char>)
    requires
        forall|i: int| 0 <= i < e.len() ==> e[i].0@ != k,
    ensures
        !pairs_map(e).contains_key(k),
    decreases e.len(),
{
    if e.len() > 0 {
        lemma_pairs_map_absent(e.drop_last(), k);
    }
}

pub proof fn lemma_pairs_map_update(e: Seq<(String, String)>, i: int, p: (String, String))
    requires
        unique_names(e),
        0 <= i < e.len(),
        p.0@ == e[i].0@,
    ensures
        pairs_map(e.update(i, p)) =~= pairs_map(e).insert(p.0@, p.1@),
    decreases e.len(),
{
    let u = e.update(i, p);
    if i == e.len() - 1 {
        assert(u.drop_last() =~= e.drop_last());
    } else {
        assert(u.drop_last() =~= e.drop_last().update(i, p));
        lemma_pairs_map_update(e.drop_last(), i, p);
    }
}

// ---------------------------------------------------------------------------
// Maps described by sequences of (key, value) pairs with distinct keys
// ---------------------------------------------------------------------------

/// The map the pairs describe, later pairs winning.
pub open spec fn keyed_map<V>(e: Seq<(Seq<char>, V)>) -> Map<Seq<char>, V>
    decreases e.len(),
{
    if e.len() == 0 {
        Map::empty()
    } else {
        keyed_map(e.drop_last()).insert(e.last().0, e.last().1)
    }
}

/// No key occurs twice.
pub open spec fn distinct_keys<V>(e: Seq<(Seq<char>, V)>) -> bool {
    forall|i: int, j: int| 0 <= i < j < e.len() ==> e[i].0 != e[j].0
}

pub proof fn lemma_keyed_push<V>(e: Seq<(Seq<char>, V)>, p: (Seq<char>, V))
    ensures
        keyed_map(e.push(p)) == keyed_map(e).insert(p.0, p.1),
{
    assert(e.push(p).drop_last() =~= e);
}

pub proof fn lemma_keyed_lookup<V>(e: Seq<(Seq<char>, V)>, i: int)
    requires
        distinct_keys(e),
        0 <= i < e.len(),
    ensures
        keyed_map(e).contains_key(e[i].0),
        keyed_map(e)[e[i].0] == e[i].1,
    decreases e.len(),
{
    if i < e.len() - 1 {
        lemma_keyed_lookup(e.drop_last(), i);
    }
}

pub proof fn lemma_keyed_absent<V>(e: Seq<(Seq<char>, V)>, k: Seq<char>)
    requires
        forall|i: int| 0 <= i < e.len() ==> e[i].0 != k,
    ensures
        !keyed_map(e).contains_key(k),
    decreases e.len(),
{
    if e.len() > 0 {
        lemma_keyed_absent(e.drop_last(), k);
    }
}

pub proof fn lemma_keyed_update<V>(e: Seq<(Seq<char>, V)>, i: int, p: (Seq<char>, V))
    requires
        distinct_keys(e),
        0 <= i < e.len(),
        p.0 == e[i].0,
    ensures
        keyed_map(e.update(i, p)) =~= keyed_map(e).insert(p.0, p.1),
    decreases e.len(),
{
    let u = e.update(i, p);
    if i == e.len() - 1 {
        assert(u.drop_last() =~= e.drop_last());
    } else {
        assert(u.drop_last() =~= e.drop_last().update(i, p));
        lemma_keyed_update(e.drop_last(), i, p);
    }
}

pub proof fn lemma_keyed_remove<V>(e: Seq<(Seq<char>, V)>, i: int)
    requires
        distinct_keys(e),
        0 <= i < e.len(),
    ensures
        keyed_map(e.remove(i)) =~= keyed_map(e).remove(e[i].0),
    decreases e.len(),
{
    if i == e.len() - 1 {
        assert(e.remove(i) =~= e.drop_last());
        lemma_keyed_absent(e.drop_last(), e[i].0);
    } else {
        assert(e.remove(i).drop_last() =~= e.drop_last().remove(i));
        assert(e.remove(i).last() == e.last());
        lemma_keyed_remove(e.drop_last(), i);
    }
}

pub proof fn lemma_keyed_len<V>(e: Seq<(Seq<char>, V)>)
    requires
        distinct_keys(e),
    ensures
        keyed_map(e).dom().finite(),
        keyed_map(e).dom().len() == e.len(),
    decreases e.len(),
{
    if e.len() > 0 {
        lemma_keyed_len(e.drop_last());
        lemma_keyed_absent(e.drop_last(), e.last().0);
    }
}

/// Flag values by flag name. A name occurs at most once.
pub struct FlagMap {
    entries: Vec<(String, String)>,
}

impl FlagMap {
    #[verifier::type_invariant]
    spec fn inv(&self) -> bool {
        unique_names(self.entries@)
    }

    /// The names and values held, in the order they were first set.
    pub closed spec fn spec_entries(&self) -> Seq<(String, String)> {
        self.entries@
    }

    /// The values by name.
    pub open spec fn spec_map(&self) -> Map<Seq<char>, Seq<char>> {
        pairs_map(self.spec_entries())
    }

    /// An empty map.
    pub fn new() -> (m: FlagMap)
        ensures
            m.spec_entries().len() == 0,
            m.spec_map() == Map::<Seq<char>, Seq<char>>::empty(),
    {
        FlagMap { entries: Vec::new() }
    }

    /// Number of names held.
    pub fn len(&self) -> (n: usize)
        ensures
            n == self.spec_entries().len(),
            unique_names(self.spec_entries()),
    {
        proof {
            use_type_invariant(self);
        }
        self.entries.len()
    }

    /// The name and value at position `i`.
    pub fn entry(&self, i: usize) -> (r: (&String, &String))
        requires
            i < self.spec_entries().len(),
        ensures
            *r.0 == self.spec_entries()[i as int].0,
            *r.1 == self.spec_entries()[i as int].1,
    {
        (&self.entries[i].0, &self.entries[i].1)
    }

    fn find(&self, name: &str) -> (r: Option<usize>)
        ensures
            match r {
                Some(i) => i < self.entries@.len() && self.entries@[i as int].0@ == name@,
                None => forall|i: int| 0 <= i < self.entries@.len() ==> self.entries@[i].0@ != name@,
            },
    {
        let mut i: usize = 0;
        while i < self.entries.len()
            invariant
                i <= self.entries@.len(),
                forall|k: int| 0 <= k < i ==> self.entries@[k].0@ != name@,
            decreases self.entries.len() - i,
        {
            if str_eq(self.entries[i].0.as_str(), name) {
                return Some(i);
            }
            i = i + 1;
        }
        None
    }

    /// The value held for `name`.
    pub fn get(&self, name: &str) -> (r: Option<&String>)
        ensures
            match r {
                Some(v) => self.spec_map().contains_key(name@) && self.spec_map()[name@] == v@,
                None => !self.spec_map().contains_key(name@),
            },
    {
        proof {
            use_type_invariant(self);
        }
        match self.find(name) {
            Some(i) => {
                proof {
                    lemma_pairs_map_lookup(self.entries@, i as int);
                }
                Some(&self.entries[i].1)
            },
            None => {
                proof {
                    lemma_pairs_map_absent(self.entries@, name@);
                }
                None
            },
        }
    }

    /// Whether a value is held for `name`.
    pub fn contains_key(&self, name: &str) -> (r: bool)
        ensures
            r == self.spec_map().contains_key(name@),
    {
        self.get(name).is_some()
    }

    /// Sets the value of `name`, replacing any earlier one.
    pub fn insert(&mut self, name: String, value: String)
        ensures
            final(self).spec_map() == old(self).spec_map().insert(name@, value@),
    {
        proof {
            use_type_invariant(&*self);
        }
        let found = self.find(name.as_str());
        assert(unique_names(self.entries@));
        let mut entries: Vec<(String, String)> = Vec::new();
        std::mem::swap(&mut entries, &mut self.entries);
        let ghost old_entries = entries@;
        match found {
            Some(i) => {
                proof {
                    lemma_pairs_map_update(old_entries, i as int, (name, value));
                }
                entries.set(i, (name, value));
                assert(entries@ == old_entries.update(i as int, (name, value)));
                assert(forall|k: int| 0 <= k < entries@.len() ==> #[trigger] entries@[k].0@ == old_entries[k].0@);
            },
            None => {
                entries.push((name, value));
                assert(entries@.drop_last() =~= old_entries);
            },
        }
        self.entries = entries;
    }
}

// ---------------------------------------------------------------------------
// Typed values
// ---------------------------------------------------------------------------

/// Values stored by their type, at most one per type. Verus does not model
/// a map of trait objects, so the map lives behind this opaque type.
#[verifier::external_body]
pub struct ValueStore {
    values: std::collections::HashMap<std::any::TypeId, Box<dyn std::any::Any>>,
}

/// A store holding no values (`HashMap::new`).
#[verifier::external_body]
fn new_value_store() -> ValueStore {
    ValueStore { values: std::collections::HashMap::new() }
}

// ---------------------------------------------------------------------------
// Context
// ---------------------------------------------------------------------------

/// The context a command handler receives.
pub struct Context {
    args: Vec<String>,
    flags: FlagMap,
    values: ValueStore,
}

/// Boolean words a flag value may be: `true`, `t`, `1`, `yes`, `y` and
/// `false`, `f`, `0`, `no`, `n`, in any ASCII case.
pub open spec fn bool_word(s: Seq<char>) -> Option<bool> {
    let l = ascii_lower(s);
    if l == "true"@ || l == "t"@ || l == "1"@ || l == "yes"@ || l == "y"@ {
        Some(true)
    } else if l == "false"@ || l == "f"@ || l == "0"@ || l == "no"@ || l == "n"@ {
        Some(false)
    } else {
        None
    }
}

/// The words that read as `true`, once lowered: `true`, `t`, `1`, `yes`, `y`.
pub open spec fn is_true_word(l: Seq<char>) -> bool {
    l == seq!['t', 'r', 'u', 'e'] || l == seq!['t'] || l == seq!['1'] || l == seq!['y', 'e', 's']
        || l == seq!['y']
}

/// The words that read as `false`, once lowered: `false`, `f`, `0`, `no`, `n`.
pub open spec fn is_false_word(l: Seq<char>) -> bool {
    l == seq!['f', 'a', 'l', 's', 'e'] || l == seq!['f'] || l == seq!['0'] || l == seq!['n', 'o']
        || l == seq!['n']
}

/// A flag value reads as `true` when, in any ASCII case, it is `true`,
/// `t`, `1`, `yes` or `y`; as `false` when it is `false`, `f`, `0`, `no`
/// or `n`; and as no boolean otherwise.
pub proof fn lemma_bool_words(s: Seq<char>)
    ensures
        is_true_word(ascii_lower(s)) ==> bool_word(s) == Some(true),
        is_false_word(ascii_lower(s)) ==> bool_word(s) == Some(false),
        !is_true_word(ascii_lower(s)) && !is_false_word(ascii_lower(s)) ==> bool_word(s) is None,
{
    reveal_strlit("true");
    reveal_strlit("t");
    reveal_strlit("1");
    reveal_strlit("yes");
    reveal_strlit("y");
    reveal_strlit("false");
    reveal_strlit("f");
    reveal_strlit("0");
    reveal_strlit("no");
    reveal_strlit("n");
    assert("true"@ =~= seq!['t', 'r', 'u', 'e']);
    assert("t"@ =~= seq!['t']);
    assert("1"@ =~= seq!['1']);
    assert("yes"@ =~= seq!['y', 'e', 's']);
    assert("y"@ =~= seq!['y']);
    assert("false"@ =~= seq!['f', 'a', 'l', 's', 'e']);
    assert("f"@ =~= seq!['f']);
    assert("0"@ =~= seq!['0']);
    assert("no"@ =~= seq!['n', 'o']);
    assert("n"@ =~= seq!['n']);
    let l = ascii_lower(s);
    if is_false_word(l) {
        assert(l[0] == 'f' || l[0] == '0' || l[0] == 'n');
        assert(seq!['t', 'r', 'u', 'e'][0] == 't');
        assert(seq!['t'][0] == 't');
        assert(seq!['1'][0] == '1');
        assert(seq!['y', 'e', 's'][0] == 'y');
        assert(seq!['y'][0] == 'y');
        assert(!is_true_word(l));
    }
}

/// A boolean word and its negation (`true`/`false`, `t`/`f`, `1`/`0`,
/// `yes`/`no`, `y`/`n`, in any ASCII case) read as opposite booleans.
pub proof fn lemma_bool_word_negations_differ(s: Seq<char>, t: Seq<char>)
    requires
        is_true_word(ascii_lower(s)),
        is_false_word(ascii_lower(t)),
    ensures
        bool_word(s) is Some,
        bool_word(t) is Some,
        bool_word(s)->0 != bool_word(t)->0,
{
    lemma_bool_words(s);
    lemma_bool_words(t);
}

fn is_word(l: &[char], w: &str) -> (r: bool)
    ensures
        r == (l@ == w@),
{
    let wc = str_chars(w);
    chars_eq(l, &wc)
}

/// Reads a boolean word (see [`bool_word`]).
pub fn parse_bool_word(s: &str) -> (r: Option<bool>)
    ensures
        r == bool_word(s@),
{
    let cs = str_chars(s);
    let l = ascii_lower_chars(&cs);
    if is_word(&l, "true") || is_word(&l, "t") || is_word(&l, "1") || is_word(&l, "yes")
        || is_word(&l, "y") {
        Some(true)
    } else if is_word(&l, "false") || is_word(&l, "f") || is_word(&l, "0") || is_word(&l, "no")
        || is_word(&l, "n") {
        Some(false)
    } else {
        None
    }
}

impl Context {
    /// The remaining positional arguments.
    pub closed spec fn spec_args(&self) -> Seq<String> {
        self.args@
    }

    /// The flag values by name.
    pub closed spec fn spec_flags(&self) -> Map<Seq<char>, Seq<char>> {
        self.flags.spec_map()
    }

    /// The typed values, as an opaque store.
    pub closed spec fn spec_store(&self) -> ValueStore {
        self.values
    }

    /// A context with the given arguments, no flags and no values.
    pub fn new(args: Vec<String>) -> (c: Context)
        ensures
            c.spec_args() == args@,
            c.spec_flags() == Map::<Seq<char>, Seq<char>>::empty(),
    {
        Context { args, flags: FlagMap::new(), values: new_value_store() }
    }

    /// The arguments.
    pub fn args(&self) -> (r: &[String])
        ensures
            r@ == self.spec_args(),
    {
        self.args.as_slice()
    }

    /// The arguments, for changing.
    pub fn args_mut(&mut self) -> (r: &mut Vec<String>)
        ensures
            r@ == old(self).spec_args(),
            final(self).spec_args() == final(r)@,
            final(self).spec_flags() == old(self).spec_flags(),
            final(self).spec_store() == old(self).spec_store(),
    {
        &mut self.args
    }

    /// The value of flag `name`, if set.
    pub fn flag(&self, name: &str) -> (r: Option<&String>)
        ensures
            match r {
                Some(v) => self.spec_flags().contains_key(name@) && self.spec_flags()[name@] == v@,
                None => !self.spec_flags().contains_key(name@),
            },
    {
        self.flags.get(name)
    }

    /// Sets flag `name` to `value`.
    pub fn set_flag(&mut self, name: String, value: String)
        ensures
            final(self).spec_flags() == old(self).spec_flags().insert(name@, value@),
            final(self).spec_args() == old(self).spec_args(),
            final(self).spec_store() == old(self).spec_store(),
    {
        self.flags.insert(name, value);
    }

    /// Replaces the arguments.
    pub(crate) fn set_args(&mut self, args: Vec<String>)
        ensures
            final(self).spec_args() == args@,
            final(self).spec_flags() == old(self).spec_flags(),
            final(self).spec_store() == old(self).spec_store(),
    {
        self.args = args;
    }

    /// Adds an argument at the end.
    pub(crate) fn push_arg(&mut self, arg: String)
        ensures
            final(self).spec_args() == old(self).spec_args().push(arg),
            final(self).spec_flags() == old(self).spec_flags(),
            final(self).spec_store() == old(self).spec_store(),
    {
        self.args.push(arg);
    }

    /// Sets every flag of `flags`, later values replacing earlier ones.
    pub(crate) fn apply_flags(&mut self, flags: &FlagMap)
        ensures
            final(self).spec_flags() == old(self).spec_flags().union_prefer_right(flags.spec_map()),
            final(self).spec_args() == old(self).spec_args(),
            final(self).spec_store() == old(self).spec_store(),
    {
        let ghost start = self.spec_flags();
        let ghost e = flags.spec_entries();
        let n = flags.len();
        let mut i: usize = 0;
        assert(pairs_map(e.take(0)) =~= Map::<Seq<char>, Seq<char>>::empty());
        assert(start.union_prefer_right(Map::empty()) =~= start);
        while i < n
            invariant
                i <= n == e.len(),
                e == flags.spec_entries(),
                self.spec_flags() == start.union_prefer_right(pairs_map(e.take(i as int))),
                self.spec_args() == old(self).spec_args(),
                self.spec_store() == old(self).spec_store(),
            decreases n - i,
        {
            let (name, value) = flags.entry(i);
            self.set_flag(name.clone(), value.clone());
            proof {
                assert(e.take(i + 1).drop_last() =~= e.take(i as int));
                assert(e.take(i + 1).last() == e[i as int]);
                assert(start.union_prefer_right(pairs_map(e.take(i + 1))) =~= start.union_prefer_right(
                    pairs_map(e.take(i as int)),
                ).insert(e[i as int].0@, e[i as int].1@));
            }
            i = i + 1;
        }
        assert(e.take(i as int) =~= e);
    }

    /// All flag values.
    pub fn flags(&self) -> (r: &FlagMap)
        ensures
            r.spec_map() == self.spec_flags(),
    {
        &self.flags
    }

    /// Flag `name` read as a boolean word (see [`bool_word`]); `None` when
    /// unset or not such a word.
    pub fn flag_bool(&self, name: &str) -> (r: Option<bool>)
        ensures
            r == (if self.spec_flags().contains_key(name@) {
                bool_word(self.spec_flags()[name@])
            } else {
                None
            }),
    {
        match self.flag(name) {
            Some(v) => parse_bool_word(v.as_str()),
            None => None,
        }
    }

    /// Flag `name` read as an `i64` (as `str::parse`); `None` when unset or
    /// not a number in range.
    pub fn flag_int(&self, name: &str) -> (r: Option<i64>)
        ensures
            r == (if self.spec_flags().contains_key(name@) {
                parse_i64_spec(self.spec_flags()[name@])
            } else {
                None
            }),
    {
        match self.flag(name) {
            Some(v) => parse_i64(v.as_str()),
            None => None,
        }
    }

    /// Flag `name`, or `default` when unset.
    pub fn flag_str_or<'a>(&'a self, name: &str, default: &'a str) -> (r: &'a str)
        ensures
            r@ == (if self.spec_flags().contains_key(name@) {
                self.spec_flags()[name@]
            } else {
                default@
            }),
    {
        match self.flag(name) {
            Some(v) => v.as_str(),
            None => default,
        }
    }

    /// `flag_bool(name)`, or `default` when that is `None`.
    pub fn flag_bool_or(&self, name: &str, default: bool) -> (r: bool)
        ensures
            r == (if self.spec_flags().contains_key(name@) && bool_word(self.spec_flags()[name@]) is Some {
                bool_word(self.spec_flags()[name@])->0
            } else {
                default
            }),
    {
        match self.flag_bool(name) {
            Some(b) => b,
            None => default,
        }
    }

    /// `flag_int(name)`, or `default` when that is `None`.
    pub fn flag_int_or(&self, name: &str, default: i64) -> (r: i64)
        ensures
            r == (if self.spec_flags().contains_key(name@) && parse_i64_spec(self.spec_flags()[name@]) is Some {
                parse_i64_spec(self.spec_flags()[name@])->0
            } else {
                default
            }),
    {
        match self.flag_int(name) {
            Some(v) => v,
            None => default,
        }
    }

    /// Stores `value` as the value of its type, replacing any earlier one
    /// (`HashMap::insert` keyed by `TypeId`). Arguments and flags are left
    /// as they were; what the store holds is not modelled.
    #[verifier::external_body]
    pub fn set<T: std::any::Any + Send + Sync>(&mut self, value: T)
        ensures
            final(self).spec_args() == old(self).spec_args(),
            final(self).spec_flags() == old(self).spec_flags(),
    {
        self.values.values.insert(std::any::TypeId::of::<T>(), Box::new(value));
    }

    /// The stored value of type `T`, if any (`HashMap::get` and
    /// `downcast_ref`). What comes back is not modelled.
    #[verifier::external_body]
    pub fn get<T: std::any::Any + Send + Sync>(&self) -> Option<&T> {
        self.values.values.get(&std::any::TypeId::of::<T>()).and_then(|v| (**v).downcast_ref())
    }

    /// The stored value of type `T`, for changing (`HashMap::get_mut` and
    /// `downcast_mut`). Arguments and flags are left as they were.
    #[verifier::external_body]
    pub fn get_mut<T: std::any::Any + Send + Sync>(&mut self) -> (r: Option<&mut T>)
        ensures
            final(self).spec_args() == old(self).spec_args(),
            final(self).spec_flags() == old(self).spec_flags(),
    {
        self.values.values.get_mut(&std::any::TypeId::of::<T>()).and_then(|v| (**v).downcast_mut())
    }
}

} // verus!
