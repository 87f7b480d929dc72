//! A cache of completion results keyed by the completion context, whose
//! entries expire after a time-to-live.

use vstd::prelude::*;
use std::time::{Duration, Instant};
use crate::completion::{result_content, CompletionResult};
use crate::context::{
    distinct_keys, keyed_map, lemma_keyed_absent, lemma_keyed_len, lemma_keyed_lookup,
    lemma_keyed_remove, lemma_keyed_update, lemma_pairs_map_absent, lemma_pairs_map_lookup, pairs_map,
    unique_names, FlagMap,
};
use crate::text::{push_slice, str_chars, str_eq, string_from_chars, string_views};
use crate::suggestion::{char_views, insert_lex_sorted, lex_sorted};

verus! {

#[verifier::external_type_specification]
#[verifier::external_body]
pub struct ExInstant(std::time::Instant);

/// What `Duration::from_secs` returns for a number of seconds.
pub uninterp spec fn duration_of_secs(secs: u64) -> Duration;

/// What `Duration::as_nanos` returns for a duration: the whole number of
/// nanoseconds it holds.
pub uninterp spec fn nanos_of(d: Duration) -> u128;

/// `Duration::from_secs`: the duration of `secs` whole seconds, which holds
/// `secs` times a billion nanoseconds.
#[verifier::external_body]
fn duration_from_secs(secs: u64) -> (d: Duration)
    ensures
        d == duration_of_secs(secs),
        nanos_of(d) == secs * 1_000_000_000,
{
    Duration::from_secs(secs)
}

/// `Instant::now`: the current time, which nothing here can predict.
#[verifier::external_body]
fn instant_now() -> Instant {
    Instant::now()
}

/// `Instant::elapsed`: how long ago `stamp` was, by the clock; nothing
/// is stated of it.
#[verifier::external_body]
fn elapsed_since(stamp: &Instant) -> Duration {
    stamp.elapsed()
}

/// `Instant::duration_since`: how long after `stamp` the instant `now`
/// is (zero when it is earlier); nothing is stated of it.
#[verifier::external_body]
fn time_between(now: &Instant, stamp: &Instant) -> Duration {
    now.duration_since(*stamp)
}

/// `Duration::as_nanos`: the whole number of nanoseconds in `d`, exactly,
/// so durations compare as their nanosecond counts do.
#[verifier::external_body]
fn whole_nanos(d: &Duration) -> (n: u128)
    ensures
        n == nanos_of(*d),
{
    d.as_nanos()
}

// ---------------------------------------------------------------------------
// The cache
// ---------------------------------------------------------------------------

/// What a cached result holds, by content.
pub type CachedContent = (
    Seq<Seq<char>>,
    Seq<Seq<char>>,
    Seq<(Seq<char>, Option<std::sync::Arc<Box<dyn crate::active_help::HelpCondition>>>)>,
);

struct CacheEntry {
    key: String,
    result: CompletionResult,
    stamp: Instant,
}

spec fn entry_view(e: CacheEntry) -> (Seq<char>, CachedContent) {
    (e.key@, result_content(e.result))
}

spec fn entry_views(v: Seq<CacheEntry>) -> Seq<(Seq<char>, CachedContent)> {
    v.map_values(|e: CacheEntry| entry_view(e))
}

/// Completion results by key, each with the time it was stored. Entries
/// older than the time-to-live are dropped when they are looked up and when
/// another entry is stored.
pub struct CompletionCache {
    entries: Vec<CacheEntry>,
    ttl: Duration,
    ttl_nanos: u128,
}

impl CompletionCache {
    #[verifier::type_invariant]
    spec fn inv(&self) -> bool {
        distinct_keys(entry_views(self.entries@))
    }

    /// The entries as (key, content) pairs, in the order they were stored.
    pub closed spec fn spec_entries(&self) -> Seq<(Seq<char>, CachedContent)> {
        entry_views(self.entries@)
    }

    /// The cached results by key.
    pub open spec fn spec_map(&self) -> Map<Seq<char>, CachedContent> {
        keyed_map(self.spec_entries())
    }

    /// How long an entry stays valid.
    pub closed spec fn spec_ttl(&self) -> Duration {
        self.ttl
    }

    /// The time-to-live in whole nanoseconds (`Duration::as_nanos` of
    /// [`CompletionCache::spec_ttl`]): an entry whose age in nanoseconds is
    /// below it is fresh.
    pub closed spec fn spec_ttl_nanos(&self) -> u128 {
        self.ttl_nanos
    }

    /// An empty cache whose entries stay valid for `ttl`.
    pub fn new(ttl: Duration) -> (c: CompletionCache)
        ensures
            c.spec_map() == Map::<Seq<char>, CachedContent>::empty(),
            c.spec_ttl() == ttl,
            c.spec_ttl_nanos() == nanos_of(ttl),
    {
        let ttl_nanos = whole_nanos(&ttl);
        let c = CompletionCache { entries: Vec::new(), ttl, ttl_nanos };
        assert(c.spec_entries() =~= Seq::empty());
        c
    }

    /// An empty cache whose entries stay valid for five seconds.
    pub fn with_default_ttl() -> (c: CompletionCache)
        ensures
            c.spec_map() == Map::<Seq<char>, CachedContent>::empty(),
            c.spec_ttl() == duration_of_secs(5),
            c.spec_ttl_nanos() == 5_000_000_000,
    {
        CompletionCache::new(duration_from_secs(5))
    }


    fn find(&self, key: &str) -> (r: Option<usize>)
        ensures
            match r {
                Some(i) => i < self.spec_entries().len() && self.spec_entries()[i as int].0 == key@,
                None => forall|i: int|
                    0 <= i < self.spec_entries().len() ==> self.spec_entries()[i].0 != key@,
            },
    {
        let mut i: usize = 0;
        while i < self.entries.len()
            invariant
                i <= self.entries@.len(),
                forall|k: int| 0 <= k < i ==> self.spec_entries()[k].0 != key@,
            decreases self.entries.len() - i,
        {
            if str_eq(self.entries[i].key.as_str(), key) {
                return Some(i);
            }
            i = i + 1;
        }
        None
    }

    /// The result cached under `key` if it is still valid. An expired entry
    /// is dropped and `None` returned; so is `None` when nothing is cached.
    pub fn get(&mut self, key: &str) -> (r: Option<CompletionResult>)
        ensures
            final(self).spec_ttl() == old(self).spec_ttl(),
            final(self).spec_ttl_nanos() == old(self).spec_ttl_nanos(),
            match r {
                Some(res) => {
                    &&& old(self).spec_map().contains_key(key@)
                    &&& result_content(res) == old(self).spec_map()[key@]
                    &&& final(self).spec_map() == old(self).spec_map()
                },
                None => final(self).spec_map() == old(self).spec_map().remove(key@),
            },
    {
        proof {
            use_type_invariant(&*self);
        }
        match self.find(key) {
            None => {
                proof {
                    lemma_keyed_absent(self.spec_entries(), key@);
                    assert(self.spec_map() =~= self.spec_map().remove(key@));
                }
                None
            },
            Some(i) => {
                proof {
                    lemma_keyed_lookup(self.spec_entries(), i as int);
                }
                let age = whole_nanos(&elapsed_since(&self.entries[i].stamp));
                self.settle_lookup(i, age)
            },
        }
    }

    /// Ends a lookup that found entry `i`, given the entry's age in
    /// nanoseconds: an entry younger than the time-to-live is fresh, and
    /// its result is returned with the cache kept as it is; an older one is
    /// dropped and `None` returned.
    pub fn settle_lookup(&mut self, i: usize, age: u128) -> (r: Option<CompletionResult>)
        requires
            i < old(self).spec_entries().len(),
        ensures
            final(self).spec_ttl() == old(self).spec_ttl(),
            final(self).spec_ttl_nanos() == old(self).spec_ttl_nanos(),
            (r is Some) == (age < old(self).spec_ttl_nanos()),
            age < old(self).spec_ttl_nanos() ==> result_content(r->0) == old(self).spec_map()[old(
                self,
            ).spec_entries()[i as int].0] && final(self).spec_map() == old(self).spec_map(),
            age >= old(self).spec_ttl_nanos() ==> final(self).spec_map() == old(self).spec_map().remove(
                old(self).spec_entries()[i as int].0,
            ),
    {
        let fresh = age < self.ttl_nanos;
        proof {
            use_type_invariant(&*self);
            lemma_keyed_lookup(self.spec_entries(), i as int);
        }
        if fresh {
            Some(self.entries[i].result.duplicate())
        } else {
            let mut entries: Vec<CacheEntry> = Vec::new();
            std::mem::swap(&mut entries, &mut self.entries);
            let ghost before = entry_views(entries@);
            entries.remove(i);
            proof {
                lemma_keyed_remove(before, i as int);
                assert(entry_views(entries@) =~= before.remove(i as int));
            }
            self.entries = entries;
            None
        }
    }

    /// Stores `result` under `key`, replacing any earlier entry, stamped
    /// with the current time.
    fn insert_entry(&mut self, key: String, result: CompletionResult)
        ensures
            final(self).spec_ttl() == old(self).spec_ttl(),
            final(self).spec_ttl_nanos() == old(self).spec_ttl_nanos(),
            final(self).spec_map() == old(self).spec_map().insert(key@, result_content(result)),
    {
        proof {
            use_type_invariant(&*self);
        }
        let found = self.find(key.as_str());
        let ghost s0 = self.spec_entries();
        let mut entries: Vec<CacheEntry> = Vec::new();
        std::mem::swap(&mut entries, &mut self.entries);
        let ghost before = entry_views(entries@);
        let ghost key_view = key@;
        assert(before == s0);
        let entry = CacheEntry { key, result, stamp: instant_now() };
        match found {
            Some(i) => {
                proof {
                    lemma_keyed_update(before, i as int, entry_view(entry));
                }
                entries.set(i, entry);
                assert(entry_views(entries@) =~= before.update(
                    i as int,
                    entry_view(entry),
                ));
                assert(forall|k: int| 0 <= k < before.len() ==> #[trigger] entry_views(entries@)[k].0
                    == before[k].0);
                assert(distinct_keys(entry_views(entries@)));
            },
            None => {
                entries.push(entry);
                assert(entry_views(entries@).drop_last() =~= before);
                assert(forall|k: int| 0 <= k < before.len() ==> #[trigger] entry_views(entries@)[k]
                    == before[k]);
                assert(entry_views(entries@).last().0 == key_view);
                assert(forall|k: int| 0 <= k < before.len() ==> before[k].0 != key_view);
                assert(distinct_keys(entry_views(entries@)));
            },
        }
        self.entries = entries;
    }

    /// Drops the expired entries, given each entry's age in nanoseconds
    /// (`ages` has one age per entry, in the order of
    /// [`CompletionCache::spec_entries`]): an entry stays, with its content,
    /// exactly when its age is below the time-to-live.
    pub fn drop_expired(&mut self, ages: &[u128])
        requires
            ages@.len() == old(self).spec_entries().len(),
        ensures
            final(self).spec_ttl() == old(self).spec_ttl(),
            final(self).spec_ttl_nanos() == old(self).spec_ttl_nanos(),
            forall|k: Seq<char>|
                #[trigger] final(self).spec_map().contains_key(k) ==> old(self).spec_map().contains_key(k)
                    && final(self).spec_map()[k] == old(self).spec_map()[k],
            forall|i: int|
                0 <= i < ages@.len() ==> (ages@[i] < old(self).spec_ttl_nanos()
                    <==> final(self).spec_map().contains_key(#[trigger] old(self).spec_entries()[i].0)),
    {
        let mut keep: Vec<bool> = Vec::new();
        let mut i: usize = 0;
        while i < ages.len()
            invariant
                i <= ages@.len(),
                keep@.len() == i,
                forall|j: int| 0 <= j < i ==> keep@[j] == (ages@[j] < self.ttl_nanos),
            decreases ages.len() - i,
        {
            keep.push(ages[i] < self.ttl_nanos);
            i = i + 1;
        }
        self.drop_unmarked(&keep);
    }

    /// Drops the entries whose mark in `keep` is false (`keep` has one
    /// mark per entry, in the order of [`CompletionCache::spec_entries`]):
    /// an entry stays exactly when its mark is true, with its content.
    fn drop_unmarked(&mut self, keep: &[bool])
        requires
            keep@.len() == old(self).spec_entries().len(),
        ensures
            final(self).spec_ttl() == old(self).spec_ttl(),
            final(self).spec_ttl_nanos() == old(self).spec_ttl_nanos(),
            forall|k: Seq<char>|
                #[trigger] final(self).spec_map().contains_key(k) ==> old(self).spec_map().contains_key(k)
                    && final(self).spec_map()[k] == old(self).spec_map()[k],
            forall|i: int|
                0 <= i < keep@.len() ==> (keep@[i] <==> final(self).spec_map().contains_key(
                    #[trigger] old(self).spec_entries()[i].0,
                )),
    {
        proof {
            use_type_invariant(&*self);
        }
        let mut entries: Vec<CacheEntry> = Vec::new();
        std::mem::swap(&mut entries, &mut self.entries);
        let ghost orig = entry_views(entries@);
        let mut i: usize = keep.len();
        while i > 0
            invariant
                i <= keep@.len() == orig.len(),
                distinct_keys(orig),
                distinct_keys(entry_views(entries@)),
                entries@.len() >= i,
                forall|j: int|
                    0 <= j < i ==> #[trigger] entry_views(entries@)[j]
                        == orig[j],
                forall|k: Seq<char>|
                    #[trigger] keyed_map(entry_views(entries@)).contains_key(k)
                        ==> keyed_map(orig).contains_key(k) && keyed_map(
                        entry_views(entries@),
                    )[k] == keyed_map(orig)[k],
                forall|j: int|
                    i <= j < orig.len() ==> (keep@[j] <==> keyed_map(
                        entry_views(entries@),
                    ).contains_key(#[trigger] orig[j].0)),
            decreases i,
        {
            i = i - 1;
            let ghost cur = entry_views(entries@);
            assert(cur[i as int] == orig[i as int]);
            if !keep[i] {
                entries.remove(i);
                proof {
                    lemma_keyed_remove(cur, i as int);
                    assert(entry_views(entries@) =~= cur.remove(
                        i as int,
                    ));
                    let nxt = cur.remove(i as int);
                    assert forall|j: int| 0 <= j < i implies #[trigger] nxt[j] == orig[j] by {
                        assert(nxt[j] == cur[j]);
                    }
                    assert forall|a: int, b: int| 0 <= a < b < nxt.len() implies nxt[a].0
                        != nxt[b].0 by {
                        let a2 = if a < i { a } else { a + 1 };
                        let b2 = if b < i { b } else { b + 1 };
                        assert(nxt[a] == cur[a2]);
                        assert(nxt[b] == cur[b2]);
                    }
                    assert forall|j: int| i <= j < orig.len() implies (keep@[j]
                        <==> keyed_map(nxt).contains_key(#[trigger] orig[j].0)) by {
                        if j > i {
                            assert(orig[j].0 != orig[i as int].0);
                        }
                    }
                }
            } else {
                proof {
                    lemma_keyed_lookup(cur, i as int);
                }
            }
        }
        self.entries = entries;
    }

    /// Stores `result` under `key`, replacing any earlier entry, and drops
    /// the entries that have expired. Whatever the clock says, every entry
    /// left was in the cache or is the one stored, with the same content.
    pub fn put(&mut self, key: String, result: CompletionResult)
        ensures
            final(self).spec_ttl() == old(self).spec_ttl(),
            final(self).spec_ttl_nanos() == old(self).spec_ttl_nanos(),
            forall|k: Seq<char>|
                #[trigger] final(self).spec_map().contains_key(k) ==> old(self).spec_map().insert(
                    key@,
                    result_content(result),
                ).contains_key(k) && final(self).spec_map()[k] == old(self).spec_map().insert(
                    key@,
                    result_content(result),
                )[k],
    {
        self.insert_entry(key, result);
        let now = instant_now();
        let mut ages: Vec<u128> = Vec::new();
        let mut i: usize = 0;
        while i < self.entries.len()
            invariant
                i <= self.entries@.len(),
                ages@.len() == i,
            decreases self.entries.len() - i,
        {
            ages.push(whole_nanos(&time_between(&now, &self.entries[i].stamp)));
            i = i + 1;
        }
        self.drop_expired(&ages);
    }

    /// Drops every entry.
    pub fn clear(&mut self)
        ensures
            final(self).spec_ttl() == old(self).spec_ttl(),
            final(self).spec_ttl_nanos() == old(self).spec_ttl_nanos(),
            final(self).spec_map() == Map::<Seq<char>, CachedContent>::empty(),
    {
        self.entries = Vec::new();
        assert(self.spec_entries() =~= Seq::empty());
    }

    /// The number of entries held, expired or not.
    pub fn size(&self) -> (n: usize)
        ensures
            n == self.spec_map().dom().len(),
    {
        proof {
            use_type_invariant(self);
            lemma_keyed_len(self.spec_entries());
        }
        self.entries.len()
    }
}


// ---------------------------------------------------------------------------
// Keys
// ---------------------------------------------------------------------------

/// The characters written with a backslash before them in a key: the
/// backslash itself and the two separators `:` and `=`.
pub open spec fn is_special(c: char) -> bool {
    c == '\\' || c == ':' || c == '='
}

/// `s` with a backslash before each special character.
pub open spec fn esc(s: Seq<char>) -> Seq<char>
    decreases s.len(),
{
    if s.len() == 0 {
        Seq::empty()
    } else {
        (if is_special(s[0]) {
            seq!['\\', s[0]]
        } else {
            seq![s[0]]
        }) + esc(s.drop_first())
    }
}

/// The key text of one flag: its escaped name, `=`, its escaped value.
pub open spec fn flag_part(name: Seq<char>, value: Seq<char>) -> Seq<char> {
    esc(name) + seq!['='] + esc(value)
}

/// The key text of each flag entry.
pub open spec fn flag_parts(e: Seq<(String, String)>) -> Seq<Seq<char>> {
    Seq::new(e.len(), |i: int| flag_part(e[i].0@, e[i].1@))
}

/// `parts` joined by `:`.
pub open spec fn joined(parts: Seq<Seq<char>>) -> Seq<char>
    decreases parts.len(),
{
    if parts.len() == 0 {
        Seq::empty()
    } else if parts.len() == 1 {
        parts[0]
    } else {
        parts[0] + seq![':'] + joined(parts.drop_first())
    }
}

/// The escaped forms of `parts`.
pub open spec fn escaped(parts: Seq<Seq<char>>) -> Seq<Seq<char>> {
    Seq::new(parts.len(), |i: int| esc(parts[i]))
}

/// The parts of a key: the escaped command path, `__prefix`, the escaped
/// prefix, then the flag parts.
pub open spec fn key_tokens(path: Seq<Seq<char>>, prefix: Seq<char>, sorted_flags: Seq<Seq<char>>) -> Seq<
    Seq<char>,
> {
    escaped(path + seq!["__prefix"@, prefix]) + sorted_flags
}

/// A cache key: the command path, `__prefix`, the prefix and each flag as
/// `name=value` in sorted order, joined by `:`, with `\`, `:` and `=`
/// escaped by a backslash inside each part.
pub open spec fn key_text(path: Seq<Seq<char>>, prefix: Seq<char>, sorted_flags: Seq<Seq<char>>) -> Seq<
    char,
> {
    joined(key_tokens(path, prefix, sorted_flags))
}

proof fn lemma_esc_concat(a: Seq<char>, b: Seq<char>)
    ensures
        esc(a + b) == esc(a) + esc(b),
    decreases a.len(),
{
    if a.len() > 0 {
        assert((a + b).drop_first() =~= a.drop_first() + b);
        lemma_esc_concat(a.drop_first(), b);
        assert((a + b)[0] == a[0]);
    } else {
        assert(a + b =~= b);
    }
}

/// What may follow an escaped text in a key: nothing, or an unescaped
/// separator.
pub open spec fn separator_next(r: Seq<char>) -> bool {
    r.len() == 0 || r[0] == ':' || r[0] == '='
}

/// An escaped text followed by nothing or an unescaped separator is read
/// back uniquely.
proof fn lemma_esc_read(s1: Seq<char>, r1: Seq<char>, s2: Seq<char>, r2: Seq<char>)
    requires
        separator_next(r1),
        separator_next(r2),
        esc(s1) + r1 == esc(s2) + r2,
    ensures
        s1 == s2,
        r1 == r2,
    decreases s1.len() + s2.len(),
{
    let l = esc(s1) + r1;
    let r = esc(s2) + r2;
    if s1.len() == 0 {
        assert(esc(s1) =~= Seq::<char>::empty());
        assert(l =~= r1);
        if s2.len() > 0 {
            assert(r[0] == esc(s2)[0]);
            assert(esc(s2)[0] == s2[0] || esc(s2)[0] == '\\');
            assert(false);
        }
        assert(esc(s2) =~= Seq::<char>::empty());
        assert(r =~= r2);
        assert(s1 =~= s2);
    } else if s2.len() == 0 {
        assert(esc(s2) =~= Seq::<char>::empty());
        assert(r =~= r2);
        assert(l[0] == esc(s1)[0]);
        assert(esc(s1)[0] == s1[0] || esc(s1)[0] == '\\');
        assert(false);
    } else {
        let h1 = if is_special(s1[0]) { seq!['\\', s1[0]] } else { seq![s1[0]] };
        let h2 = if is_special(s2[0]) { seq!['\\', s2[0]] } else { seq![s2[0]] };
        assert(esc(s1) == h1 + esc(s1.drop_first()));
        assert(esc(s2) == h2 + esc(s2.drop_first()));
        assert(l =~= h1 + (esc(s1.drop_first()) + r1));
        assert(r =~= h2 + (esc(s2.drop_first()) + r2));
        assert(l[0] == h1[0]);
        assert(r[0] == h2[0]);
        assert(h1.len() == h2.len());
        if h1.len() == 2 {
            assert(l[1] == h1[1]);
            assert(r[1] == h2[1]);
        } else {
            assert(h1[0] == s1[0]);
            assert(h2[0] == s2[0]);
        }
        assert(s1[0] == s2[0]);
        assert(h1 == h2);
        let n = h1.len() as int;
        assert(l.skip(n) =~= esc(s1.drop_first()) + r1);
        assert(r.skip(n) =~= esc(s2.drop_first()) + r2);
        lemma_esc_read(s1.drop_first(), r1, s2.drop_first(), r2);
        assert(s1 =~= seq![s1[0]] + s1.drop_first());
        assert(s2 =~= seq![s2[0]] + s2.drop_first());
    }
}

/// `p` is the key text of some flag.
pub open spec fn is_flag_part(p: Seq<char>) -> bool {
    exists|n: Seq<char>, v: Seq<char>| p == flag_part(n, v)
}

/// `parts` are all flag parts.
pub open spec fn all_flag_parts(parts: Seq<Seq<char>>) -> bool {
    forall|i: int| 0 <= i < parts.len() ==> #[trigger] is_flag_part(parts[i])
}

/// `t` is an escaped text.
pub open spec fn is_plain_token(t: Seq<char>) -> bool {
    exists|a: Seq<char>| t == esc(a)
}

/// `t` is a part of a key.
pub open spec fn is_token(t: Seq<char>) -> bool {
    is_plain_token(t) || is_flag_part(t)
}

/// What may follow a part in a key: nothing, or `:`.
pub open spec fn colon_next(r: Seq<char>) -> bool {
    r.len() == 0 || r[0] == ':'
}

/// A part followed by nothing or `:` is read back uniquely.
proof fn lemma_token_read(t1: Seq<char>, r1: Seq<char>, t2: Seq<char>, r2: Seq<char>)
    requires
        is_token(t1),
        is_token(t2),
        colon_next(r1),
        colon_next(r2),
        t1 + r1 == t2 + r2,
    ensures
        t1 == t2,
        r1 == r2,
{
    if is_plain_token(t1) {
        let a1 = choose|a: Seq<char>| t1 == esc(a);
        if is_plain_token(t2) {
            let a2 = choose|a: Seq<char>| t2 == esc(a);
            lemma_esc_read(a1, r1, a2, r2);
        } else {
            let (n2, v2) = choose|n: Seq<char>, v: Seq<char>| t2 == flag_part(n, v);
            let rr2 = seq!['='] + esc(v2) + r2;
            assert(t2 + r2 =~= esc(n2) + rr2);
            lemma_esc_read(a1, r1, n2, rr2);
            assert(false);
        }
    } else {
        let (n1, v1) = choose|n: Seq<char>, v: Seq<char>| t1 == flag_part(n, v);
        let rr1 = seq!['='] + esc(v1) + r1;
        assert(t1 + r1 =~= esc(n1) + rr1);
        if is_plain_token(t2) {
            let a2 = choose|a: Seq<char>| t2 == esc(a);
            lemma_esc_read(n1, rr1, a2, r2);
            assert(false);
        } else {
            let (n2, v2) = choose|n: Seq<char>, v: Seq<char>| t2 == flag_part(n, v);
            let rr2 = seq!['='] + esc(v2) + r2;
            assert(t2 + r2 =~= esc(n2) + rr2);
            lemma_esc_read(n1, rr1, n2, rr2);
            assert(rr1.drop_first() =~= esc(v1) + r1);
            assert(rr2.drop_first() =~= esc(v2) + r2);
            lemma_esc_read(v1, r1, v2, r2);
        }
    }
}

/// Every element of `ts` is a part of a key.
pub open spec fn all_tokens(ts: Seq<Seq<char>>) -> bool {
    forall|i: int| 0 <= i < ts.len() ==> #[trigger] is_token(ts[i])
}

/// Non-empty lists of parts joined by `:` are read back uniquely.
proof fn lemma_joined_read(ts1: Seq<Seq<char>>, ts2: Seq<Seq<char>>)
    requires
        ts1.len() > 0,
        ts2.len() > 0,
        all_tokens(ts1),
        all_tokens(ts2),
        joined(ts1) == joined(ts2),
    ensures
        ts1 == ts2,
    decreases ts1.len(),
{
    let rest1 = if ts1.len() == 1 { Seq::<char>::empty() } else { seq![':'] + joined(ts1.drop_first()) };
    let rest2 = if ts2.len() == 1 { Seq::<char>::empty() } else { seq![':'] + joined(ts2.drop_first()) };
    assert(joined(ts1) =~= ts1[0] + rest1);
    assert(joined(ts2) =~= ts2[0] + rest2);
    assert(is_token(ts1[0]));
    assert(is_token(ts2[0]));
    lemma_token_read(ts1[0], rest1, ts2[0], rest2);
    if ts1.len() == 1 {
        if ts2.len() > 1 {
            assert(rest2.len() > 0);
            assert(false);
        }
        assert(ts1 =~= ts2);
    } else {
        if ts2.len() == 1 {
            assert(rest1.len() > 0);
            assert(false);
        }
        assert(rest1.drop_first() =~= joined(ts1.drop_first()));
        assert(rest2.drop_first() =~= joined(ts2.drop_first()));
        assert forall|i: int| 0 <= i < ts1.drop_first().len() implies #[trigger] is_token(ts1.drop_first()[i]) by {
            assert(ts1.drop_first()[i] == ts1[i + 1]);
        }
        assert forall|i: int| 0 <= i < ts2.drop_first().len() implies #[trigger] is_token(ts2.drop_first()[i]) by {
            assert(ts2.drop_first()[i] == ts2[i + 1]);
        }
        lemma_joined_read(ts1.drop_first(), ts2.drop_first());
        assert(ts1 =~= seq![ts1[0]] + ts1.drop_first());
        assert(ts2 =~= seq![ts2[0]] + ts2.drop_first());
    }
}

/// An escaped text is no flag part.
proof fn lemma_plain_not_flag(a: Seq<char>, n: Seq<char>, v: Seq<char>)
    ensures
        esc(a) != flag_part(n, v),
{
    if esc(a) == flag_part(n, v) {
        assert(esc(a) + Seq::<char>::empty() =~= esc(n) + (seq!['='] + esc(v)));
        lemma_esc_read(a, Seq::<char>::empty(), n, seq!['='] + esc(v));
    }
}

/// Escaping loses nothing.
proof fn lemma_esc_injective(a: Seq<char>, b: Seq<char>)
    requires
        esc(a) == esc(b),
    ensures
        a == b,
{
    assert(esc(a) + Seq::<char>::empty() =~= esc(b) + Seq::<char>::empty());
    lemma_esc_read(a, Seq::<char>::empty(), b, Seq::<char>::empty());
}

/// Different completion contexts get different keys: equal keys come from
/// the same command path, the same prefix and the same flag parts.
pub proof fn lemma_key_injective(
    path1: Seq<Seq<char>>,
    prefix1: Seq<char>,
    flags1: Seq<Seq<char>>,
    path2: Seq<Seq<char>>,
    prefix2: Seq<char>,
    flags2: Seq<Seq<char>>,
)
    requires
        all_flag_parts(flags1),
        all_flag_parts(flags2),
        key_text(path1, prefix1, flags1) == key_text(path2, prefix2, flags2),
    ensures
        path1 == path2,
        prefix1 == prefix2,
        flags1 == flags2,
{
    let q1 = path1 + seq!["__prefix"@, prefix1];
    let q2 = path2 + seq!["__prefix"@, prefix2];
    let ts1 = key_tokens(path1, prefix1, flags1);
    let ts2 = key_tokens(path2, prefix2, flags2);
    assert(ts1 == escaped(q1) + flags1);
    assert(ts2 == escaped(q2) + flags2);
    assert forall|i: int| 0 <= i < ts1.len() implies #[trigger] is_token(ts1[i]) by {
        if i < q1.len() {
            assert(ts1[i] == esc(q1[i]));
            assert(is_plain_token(ts1[i]));
        } else {
            assert(ts1[i] == flags1[i - q1.len()]);
            assert(is_flag_part(flags1[i - q1.len()]));
        }
    }
    assert forall|i: int| 0 <= i < ts2.len() implies #[trigger] is_token(ts2[i]) by {
        if i < q2.len() {
            assert(ts2[i] == esc(q2[i]));
            assert(is_plain_token(ts2[i]));
        } else {
            assert(ts2[i] == flags2[i - q2.len()]);
            assert(is_flag_part(flags2[i - q2.len()]));
        }
    }
    lemma_joined_read(ts1, ts2);
    let l1 = q1.len() as int;
    let l2 = q2.len() as int;
    if l1 < l2 {
        assert(ts2[l1] == esc(q2[l1]));
        assert(ts1[l1] == flags1[0]);
        assert(is_flag_part(flags1[0]));
        let (n, v) = choose|n: Seq<char>, v: Seq<char>| flags1[0] == flag_part(n, v);
        lemma_plain_not_flag(q2[l1], n, v);
        assert(false);
    }
    if l2 < l1 {
        assert(ts1[l2] == esc(q1[l2]));
        assert(ts2[l2] == flags2[0]);
        assert(is_flag_part(flags2[0]));
        let (n, v) = choose|n: Seq<char>, v: Seq<char>| flags2[0] == flag_part(n, v);
        lemma_plain_not_flag(q1[l2], n, v);
        assert(false);
    }
    assert forall|i: int| 0 <= i < l1 implies q1[i] == q2[i] by {
        assert(ts1[i] == esc(q1[i]));
        assert(ts2[i] == esc(q2[i]));
        lemma_esc_injective(q1[i], q2[i]);
    }
    assert(q1 =~= q2);
    assert forall|i: int| 0 <= i < flags1.len() implies flags1[i] == flags2[i] by {
        assert(ts1[l1 + i] == flags1[i]);
        assert(ts2[l1 + i] == flags2[i]);
    }
    assert(flags1 =~= flags2);
    assert(path1 =~= q1.take(path1.len() as int));
    assert(path2 =~= q2.take(path2.len() as int));
    assert(prefix1 == q1[l1 - 1]);
    assert(prefix2 == q2[l2 - 1]);
}

proof fn lemma_joined_push(ps: Seq<Seq<char>>, x: Seq<char>)
    ensures
        joined(ps.push(x)) == if ps.len() == 0 {
            x
        } else {
            joined(ps) + seq![':'] + x
        },
    decreases ps.len(),
{
    if ps.len() == 0 {
        assert(ps.push(x)[0] == x);
    } else if ps.len() == 1 {
        assert(ps.push(x).drop_first() =~= seq![x]);
        assert(ps.push(x)[0] == ps[0]);
        assert(joined(seq![x]) == x);
        assert(joined(ps) == ps[0]);
    } else {
        assert(ps.push(x).drop_first() =~= ps.drop_first().push(x));
        lemma_joined_push(ps.drop_first(), x);
        assert(ps.push(x)[0] == ps[0]);
        assert(joined(ps.push(x)) =~= ps[0] + seq![':'] + (joined(ps.drop_first()) + seq![':'] + x));
    }
}


/// Appends `s` to `out` with a backslash before each special character.
fn push_esc(out: &mut Vec<char>, s: &str)
    ensures
        final(out)@ == old(out)@ + esc(s@),
{
    let cs = str_chars(s);
    let ghost start = out@;
    let mut i: usize = 0;
    assert(cs@.take(0) =~= Seq::<char>::empty());
    assert(start + esc(Seq::<char>::empty()) =~= start);
    while i < cs.len()
        invariant
            i <= cs@.len(),
            cs@ == s@,
            out@ == start + esc(cs@.take(i as int)),
        decreases cs.len() - i,
    {
        let c = cs[i];
        proof {
            assert(cs@.take(i + 1) =~= cs@.take(i as int) + seq![c]);
            lemma_esc_concat(cs@.take(i as int), seq![c]);
            assert(seq![c].drop_first() =~= Seq::<char>::empty());
            assert(seq![c][0] == c);
            assert(esc(Seq::<char>::empty()) =~= Seq::<char>::empty());
        }
        if c == '\\' || c == ':' || c == '=' {
            out.push('\\');
            out.push(c);
            proof {
                assert(esc(seq![c]) =~= seq!['\\', c]);
            }
        } else {
            out.push(c);
            proof {
                assert(esc(seq![c]) =~= seq![c]);
            }
        }
        assert(out@ =~= start + esc(cs@.take(i + 1)));
        i = i + 1;
    }
    assert(cs@.take(i as int) =~= cs@);
}

proof fn lemma_part_is_flag_part(sorted: Seq<Seq<char>>, e: Seq<(String, String)>)
    requires
        sorted.to_multiset() =~= flag_parts(e).to_multiset(),
    ensures
        all_flag_parts(sorted),
{
    sorted.to_multiset_ensures();
    flag_parts(e).to_multiset_ensures();
    assert forall|i: int| 0 <= i < sorted.len() implies #[trigger] is_flag_part(sorted[i]) by {
        assert(sorted.contains(sorted[i]));
        assert(flag_parts(e).to_multiset().count(sorted[i]) > 0);
        assert(flag_parts(e).contains(sorted[i]));
        let j = choose|j: int| 0 <= j < flag_parts(e).len() && flag_parts(e)[j] == sorted[i];
        assert(sorted[i] == flag_part(e[j].0@, e[j].1@));
    }
    assert(all_flag_parts(sorted));
}

/// The key text of a flag gives back its name and value.
proof fn lemma_flag_part_injective(n1: Seq<char>, v1: Seq<char>, n2: Seq<char>, v2: Seq<char>)
    requires
        flag_part(n1, v1) == flag_part(n2, v2),
    ensures
        n1 == n2,
        v1 == v2,
{
    assert(flag_part(n1, v1) =~= esc(n1) + (seq!['='] + esc(v1)));
    assert(flag_part(n2, v2) =~= esc(n2) + (seq!['='] + esc(v2)));
    lemma_esc_read(n1, seq!['='] + esc(v1), n2, seq!['='] + esc(v2));
    assert(esc(v1) =~= (seq!['='] + esc(v1)).drop_first());
    assert(esc(v2) =~= (seq!['='] + esc(v2)).drop_first());
    lemma_esc_injective(v1, v2);
}

proof fn lemma_map_within(e1: Seq<(String, String)>, e2: Seq<(String, String)>)
    requires
        unique_names(e1),
        unique_names(e2),
        flag_parts(e1).to_multiset() =~= flag_parts(e2).to_multiset(),
    ensures
        forall|k: Seq<char>|
            #[trigger] pairs_map(e1).contains_key(k) ==> pairs_map(e2).contains_key(k) && pairs_map(e2)[k]
                == pairs_map(e1)[k],
{
    flag_parts(e1).to_multiset_ensures();
    flag_parts(e2).to_multiset_ensures();
    assert forall|k: Seq<char>| #[trigger] pairs_map(e1).contains_key(k) implies pairs_map(e2).contains_key(k)
        && pairs_map(e2)[k] == pairs_map(e1)[k] by {
        if forall|i: int| 0 <= i < e1.len() ==> e1[i].0@ != k {
            lemma_pairs_map_absent(e1, k);
        }
        let i = choose|i: int| 0 <= i < e1.len() && e1[i].0@ == k;
        lemma_pairs_map_lookup(e1, i);
        let part = flag_parts(e1)[i];
        assert(flag_parts(e1).contains(part));
        assert(flag_parts(e2).to_multiset().count(part) > 0);
        assert(flag_parts(e2).contains(part));
        let j = choose|j: int| 0 <= j < flag_parts(e2).len() && flag_parts(e2)[j] == part;
        lemma_flag_part_injective(e1[i].0@, e1[i].1@, e2[j].0@, e2[j].1@);
        lemma_pairs_map_lookup(e2, j);
    }
}

/// Two flag tables with the same flag parts hold the same flag values:
/// the parts determine the table.
pub proof fn lemma_flag_parts_determine_flags(e1: Seq<(String, String)>, e2: Seq<(String, String)>)
    requires
        unique_names(e1),
        unique_names(e2),
        flag_parts(e1).to_multiset() =~= flag_parts(e2).to_multiset(),
    ensures
        pairs_map(e1) == pairs_map(e2),
{
    lemma_map_within(e1, e2);
    lemma_map_within(e2, e1);
    assert(pairs_map(e1) =~= pairs_map(e2));
}

/// Only identical completion contexts share a key: keys made (as
/// `make_key` makes them) from two command paths, prefixes and flag tables
/// are equal only when the paths, the prefixes and the flag values are.
pub proof fn lemma_keys_separate_contexts(
    path1: Seq<Seq<char>>,
    prefix1: Seq<char>,
    e1: Seq<(String, String)>,
    sorted1: Seq<Seq<char>>,
    path2: Seq<Seq<char>>,
    prefix2: Seq<char>,
    e2: Seq<(String, String)>,
    sorted2: Seq<Seq<char>>,
)
    requires
        unique_names(e1),
        unique_names(e2),
        sorted1.to_multiset() =~= flag_parts(e1).to_multiset(),
        sorted2.to_multiset() =~= flag_parts(e2).to_multiset(),
        key_text(path1, prefix1, sorted1) == key_text(path2, prefix2, sorted2),
    ensures
        path1 == path2,
        prefix1 == prefix2,
        pairs_map(e1) == pairs_map(e2),
{
    lemma_part_is_flag_part(sorted1, e1);
    lemma_part_is_flag_part(sorted2, e2);
    lemma_key_injective(path1, prefix1, sorted1, path2, prefix2, sorted2);
    lemma_flag_parts_determine_flags(e1, e2);
}

impl CompletionCache {
    /// The key for a completion context: the parts of the command path,
    /// `__prefix`, the prefix, then each flag as `name=value` in sorted
    /// order, joined by `:`, with `\`, `:` and `=` escaped inside the
    /// parts (see [`key_text`]).
    /// The order the flags were set in does not matter, and different
    /// contexts get different keys (see [`lemma_keys_separate_contexts`]).
    pub fn make_key(command_path: &[String], prefix: &str, flags: &FlagMap) -> (key: String)
        ensures
            unique_names(flags.spec_entries()),
            exists|sorted: Seq<Seq<char>>|
                {
                    &&& lex_sorted(sorted)
                    &&& all_flag_parts(sorted)
                    &&& sorted.to_multiset() =~= flag_parts(flags.spec_entries()).to_multiset()
                    &&& key@ == key_text(string_views(command_path@), prefix@, sorted)
                },
    {
        let ghost path = string_views(command_path@);
        let mut out: Vec<char> = Vec::new();
        let mut i: usize = 0;
        assert(escaped(path).take(0) =~= Seq::<Seq<char>>::empty());
        while i < command_path.len()
            invariant
                i <= command_path@.len(),
                path == string_views(command_path@),
                out@ == joined(escaped(path).take(i as int)),
            decreases command_path.len() - i,
        {
            proof {
                assert(escaped(path).take(i + 1) =~= escaped(path).take(i as int).push(esc(path[i as int])));
                lemma_joined_push(escaped(path).take(i as int), esc(path[i as int]));
            }
            if i > 0 {
                out.push(':');
            }
            push_esc(&mut out, command_path[i].as_str());
            assert(out@ =~= joined(escaped(path).take(i + 1)));
            i = i + 1;
        }
        assert(escaped(path).take(i as int) =~= escaped(path));
        let ghost marker = esc("__prefix"@);
        proof {
            lemma_joined_push(escaped(path), marker);
        }
        if command_path.len() > 0 {
            out.push(':');
        }
        push_esc(&mut out, "__prefix");
        assert(out@ =~= joined(escaped(path).push(marker)));
        proof {
            lemma_joined_push(escaped(path).push(marker), esc(prefix@));
        }
        out.push(':');
        push_esc(&mut out, prefix);
        let ghost head = escaped(path + seq!["__prefix"@, prefix@]);
        assert(escaped(path).push(marker).push(esc(prefix@)) =~= head);
        assert(out@ =~= joined(head));
        let mut sorted: Vec<Vec<char>> = Vec::new();
        let ghost all = flag_parts(flags.spec_entries());
        let mut j: usize = 0;
        assert(all.take(0) =~= char_views(sorted@));
        let nflags = flags.len();
        while j < nflags
            invariant
                j <= nflags == flags.spec_entries().len(),
                all == flag_parts(flags.spec_entries()),
                lex_sorted(char_views(sorted@)),
                char_views(sorted@).to_multiset() =~= all.take(j as int).to_multiset(),
            decreases flags.spec_entries().len() - j,
        {
            let (name, value) = flags.entry(j);
            let mut part: Vec<char> = Vec::new();
            push_esc(&mut part, name.as_str());
            part.push('=');
            push_esc(&mut part, value.as_str());
            proof {
                assert(part@ =~= flag_part(name@, value@));
                assert(all.take(j + 1) =~= all.take(j as int).push(part@));
                all.take(j as int).to_multiset_ensures();
            }
            insert_lex_sorted(&mut sorted, part);
            j = j + 1;
        }
        assert(all.take(j as int) =~= all);
        let ghost sv = char_views(sorted@);
        let mut k: usize = 0;
        assert(head + sv.take(0) =~= head);
        while k < sorted.len()
            invariant
                k <= sorted@.len(),
                head.len() >= 2,
                out@ == joined(head + sv.take(k as int)),
                sv == char_views(sorted@),
            decreases sorted.len() - k,
        {
            proof {
                assert(head + sv.take(k + 1) =~= (head + sv.take(k as int)).push(sv[k as int]));
                lemma_joined_push(head + sv.take(k as int), sv[k as int]);
            }
            out.push(':');
            push_slice(&mut out, &sorted[k]);
            assert(out@ =~= joined(head + sv.take(k + 1)));
            k = k + 1;
        }
        assert(sv.take(k as int) =~= sv);
        assert(head + sv == key_tokens(path, prefix@, sv));
        proof {
            lemma_part_is_flag_part(sv, flags.spec_entries());
        }
        string_from_chars(&out)
    }
}

proof fn lemma_sorted_min(a: Seq<Seq<char>>, x: Seq<char>)
    requires
        lex_sorted(a),
        a.len() > 0,
        a.to_multiset().count(x) > 0,
    ensures
        crate::suggestion::lex_le(a[0], x),
{
    a.to_multiset_ensures();
    let i = choose|i: int| 0 <= i < a.len() && a[i] == x;
    if i > 0 {
        assert(crate::suggestion::lex_le(a[0], a[i]));
    } else {
        crate::suggestion::lemma_lex_total(a[0], a[0]);
    }
}

proof fn lemma_multiset_drop_first(a: Seq<Seq<char>>)
    requires
        a.len() > 0,
    ensures
        a.drop_first().to_multiset() =~= a.to_multiset().remove(a[0]),
{
    assert(a =~= seq![a[0]] + a.drop_first());
    vstd::seq_lib::lemma_multiset_commutative(seq![a[0]], a.drop_first());
    assert(seq![a[0]] =~= Seq::<Seq<char>>::empty().push(a[0]));
    Seq::<Seq<char>>::empty().to_multiset_ensures();
}

/// Two sorted lists with the same elements are the same list.
pub proof fn lemma_sorted_unique(a: Seq<Seq<char>>, b: Seq<Seq<char>>)
    requires
        lex_sorted(a),
        lex_sorted(b),
        a.to_multiset() =~= b.to_multiset(),
    ensures
        a == b,
    decreases a.len(),
{
    a.to_multiset_ensures();
    b.to_multiset_ensures();
    if a.len() == 0 {
        if b.len() > 0 {
            assert(b.to_multiset().count(b[0]) > 0);
        }
        assert(a =~= b);
    } else {
        assert(a.to_multiset().count(a[0]) > 0);
        assert(b.len() > 0);
        assert(b.to_multiset().count(b[0]) > 0);
        lemma_sorted_min(a, b[0]);
        lemma_sorted_min(b, a[0]);
        crate::suggestion::lemma_lex_antisym(a[0], b[0]);
        lemma_multiset_drop_first(a);
        lemma_multiset_drop_first(b);
        assert(lex_sorted(a.drop_first()));
        assert(lex_sorted(b.drop_first()));
        lemma_sorted_unique(a.drop_first(), b.drop_first());
        assert(a =~= seq![a[0]] + a.drop_first());
        assert(b =~= seq![b[0]] + b.drop_first());
    }
}

/// A cache key does not depend on the order in which the flags were set:
/// two flag tables with the same `name=value` parts give the same key.
pub proof fn lemma_key_ignores_flag_order(
    path: Seq<Seq<char>>,
    prefix: Seq<char>,
    sorted1: Seq<Seq<char>>,
    sorted2: Seq<Seq<char>>,
)
    requires
        lex_sorted(sorted1),
        lex_sorted(sorted2),
        sorted1.to_multiset() =~= sorted2.to_multiset(),
    ensures
        key_text(path, prefix, sorted1) == key_text(path, prefix, sorted2),
{
    lemma_sorted_unique(sorted1, sorted2);
}

impl Default for CompletionCache {
    /// An empty cache whose entries stay valid for five seconds.
    fn default() -> (c: CompletionCache)
        ensures
            c.spec_map() == Map::<Seq<char>, CachedContent>::empty(),
            c.spec_ttl() == duration_of_secs(5),
            c.spec_ttl_nanos() == 5_000_000_000,
    {
        CompletionCache::with_default_ttl()
    }
}

} // verus!
