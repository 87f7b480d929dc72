//! Completion results: the values offered when the user presses TAB, with
//! optional descriptions and hint messages.

use vstd::prelude::*;
use crate::active_help::{condition_admits, condition_total, ActiveHelp, HelpCondition};
use crate::context::Context;
use crate::text::{IntoText, string_views};

verus! {

/// `n` empty strings.
pub open spec fn empties(n: nat) -> Seq<Seq<char>> {
    Seq::new(n, |_i: int| Seq::<char>::empty())
}

/// A hint by content: its message and its condition.
pub open spec fn help_content(h: ActiveHelp) -> (Seq<char>, Option<std::sync::Arc<Box<dyn HelpCondition>>>) {
    (h.message@, h.condition)
}

/// What a result holds, by content: its values, its descriptions and its
/// hints.
pub open spec fn result_content(r: CompletionResult) -> (
    Seq<Seq<char>>,
    Seq<Seq<char>>,
    Seq<(Seq<char>, Option<std::sync::Arc<Box<dyn HelpCondition>>>)>,
) {
    (
        string_views(r.values@),
        string_views(r.descriptions@),
        Seq::new(r.active_help@.len(), |i: int| help_content(r.active_help@[i])),
    )
}

/// Suggested completion values with their descriptions and hints.
#[derive(Clone)]
pub struct CompletionResult {
    /// The values to suggest.
    pub values: Vec<String>,
    /// The description of each value (empty when it has none).
    pub descriptions: Vec<String>,
    /// Hint messages.
    pub active_help: Vec<ActiveHelp>,
}

impl CompletionResult {
    /// Each value has its description, at the same position.
    pub open spec fn aligned(&self) -> bool {
        self.values@.len() == self.descriptions@.len()
    }

    /// An empty result.
    pub fn new() -> (r: CompletionResult)
        ensures
            r.values@.len() == 0,
            r.descriptions@.len() == 0,
            r.active_help@.len() == 0,
    {
        CompletionResult { values: Vec::new(), descriptions: Vec::new(), active_help: Vec::new() }
    }


    /// Adds a value without a description.
    pub fn add<T: IntoText>(self, value: T) -> (r: CompletionResult)
        ensures
            string_views(r.values@) == string_views(self.values@).push(value.text()),
            string_views(r.descriptions@) == string_views(self.descriptions@).push(Seq::empty()),
            r.active_help@ == self.active_help@,
    {
        let mut s = self;
        let ghost v0 = s.values@;
        let ghost d0 = s.descriptions@;
        s.values.push(value.into_string());
        s.descriptions.push(String::new());
        assert(string_views(s.values@) =~= string_views(v0).push(value.text()));
        assert(string_views(s.descriptions@) =~= string_views(d0).push(Seq::empty()));
        s
    }

    /// Adds a value with a description.
    pub fn add_with_description<T: IntoText, D: IntoText>(self, value: T, desc: D) -> (r:
        CompletionResult)
        ensures
            string_views(r.values@) == string_views(self.values@).push(value.text()),
            string_views(r.descriptions@) == string_views(self.descriptions@).push(desc.text()),
            r.active_help@ == self.active_help@,
    {
        let mut s = self;
        let ghost v0 = s.values@;
        let ghost d0 = s.descriptions@;
        s.values.push(value.into_string());
        s.descriptions.push(desc.into_string());
        assert(string_views(s.values@) =~= string_views(v0).push(value.text()));
        assert(string_views(s.descriptions@) =~= string_views(d0).push(desc.text()));
        s
    }

    /// Adds several values without descriptions.
    pub fn extend(self, values: Vec<String>) -> (r: CompletionResult)
        ensures
            string_views(r.values@) == string_views(self.values@) + string_views(values@),
            string_views(r.descriptions@) == string_views(self.descriptions@) + empties(
                values@.len(),
            ),
            r.active_help@ == self.active_help@,
    {
        let mut s = self;
        let ghost v0 = string_views(s.values@);
        let ghost d0 = string_views(s.descriptions@);
        let mut i: usize = 0;
        while i < values.len()
            invariant
                i <= values@.len(),
                string_views(s.values@) =~= v0 + string_views(values@).take(i as int),
                string_views(s.descriptions@) =~= d0 + empties(i as nat),
                s.active_help@ == self.active_help@,
            decreases values.len() - i,
        {
            let ghost sv = s.values@;
            let ghost sd = s.descriptions@;
            s.values.push(values[i].clone());
            s.descriptions.push(String::new());
            assert(string_views(s.values@) =~= string_views(sv).push(values@[i as int]@));
            assert(string_views(s.descriptions@) =~= string_views(sd).push(Seq::empty()));
            assert(empties((i + 1) as nat) =~= empties(i as nat).push(Seq::empty()));
            assert(string_views(values@).take(i + 1) =~= string_views(values@).take(i as int).push(
                values@[i as int]@,
            ));
            i = i + 1;
        }
        assert(string_views(values@).take(i as int) =~= string_views(values@));
        s
    }

    /// Adds a hint.
    pub fn add_help(self, help: ActiveHelp) -> (r: CompletionResult)
        ensures
            r.values@ == self.values@,
            r.descriptions@ == self.descriptions@,
            r.active_help@ == self.active_help@.push(help),
    {
        let mut s = self;
        s.active_help.push(help);
        s
    }

    /// Adds a hint that is always shown.
    pub fn add_help_text<S: IntoText>(self, message: S) -> (r: CompletionResult)
        ensures
            r.values@ == self.values@,
            r.descriptions@ == self.descriptions@,
            r.active_help@.len() == self.active_help@.len() + 1,
            r.active_help@.take(self.active_help@.len() as int) == self.active_help@,
            r.active_help@.last().message@ == message.text(),
            r.active_help@.last().condition is None,
    {
        let mut s = self;
        let ghost h0 = s.active_help@;
        s.active_help.push(ActiveHelp::new(message));
        assert(s.active_help@.take(h0.len() as int) =~= h0);
        s
    }

    /// Adds a hint shown only when `condition` holds.
    pub fn add_conditional_help<S: IntoText, F: Fn(&Context) -> bool + Send + Sync + 'static>(
        self,
        message: S,
        condition: F,
    ) -> (r: CompletionResult)
        requires
            condition_total(condition),
        ensures
            r.values@ == self.values@,
            r.descriptions@ == self.descriptions@,
            r.active_help@.len() == self.active_help@.len() + 1,
            r.active_help@.take(self.active_help@.len() as int) == self.active_help@,
            r.active_help@.last().message@ == message.text(),
            r.active_help@.last().condition is Some,
            forall|c: Context, b: bool|
                #[trigger] r.active_help@.last().condition->0.admits(c, b) == condition_admits(
                    condition,
                    c,
                    b,
                ),
    {
        let mut s = self;
        let ghost h0 = s.active_help@;
        s.active_help.push(ActiveHelp::with_condition(message, condition));
        assert(s.active_help@.take(h0.len() as int) =~= h0);
        s
    }

    /// This result followed by `other`: values, descriptions and hints
    /// concatenated.
    pub fn merge(self, other: CompletionResult) -> (r: CompletionResult)
        ensures
            r.values@ == self.values@ + other.values@,
            r.descriptions@ == self.descriptions@ + other.descriptions@,
            r.active_help@ == self.active_help@ + other.active_help@,
    {
        let mut s = self;
        let mut o = other;
        s.values.append(&mut o.values);
        s.descriptions.append(&mut o.descriptions);
        s.active_help.append(&mut o.active_help);
        s
    }

    /// A copy with the same values, descriptions and hints.
    pub fn duplicate(&self) -> (r: CompletionResult)
        ensures
            string_views(r.values@) == string_views(self.values@),
            string_views(r.descriptions@) == string_views(self.descriptions@),
            r.active_help@.len() == self.active_help@.len(),
            forall|i: int| 0 <= i < r.active_help@.len() ==> (#[trigger] r.active_help@[i]).message@
                == self.active_help@[i].message@ && r.active_help@[i].condition
                == self.active_help@[i].condition,
            result_content(r) == result_content(*self),
    {
        let values = copy_strings(&self.values);
        let descriptions = copy_strings(&self.descriptions);
        let mut active_help: Vec<ActiveHelp> = Vec::new();
        let mut i: usize = 0;
        while i < self.active_help.len()
            invariant
                i <= self.active_help@.len(),
                active_help@.len() == i,
                forall|k: int| 0 <= k < i ==> (#[trigger] active_help@[k]).message@
                    == self.active_help@[k].message@ && active_help@[k].condition
                    == self.active_help@[k].condition,
            decreases self.active_help.len() - i,
        {
            active_help.push(self.active_help[i].duplicate());
            i = i + 1;
        }
        let r = CompletionResult { values, descriptions, active_help };
        assert(result_content(r).2 =~= result_content(*self).2);
        r
    }
}

/// A copy of a list of strings.
pub fn copy_strings(v: &Vec<String>) -> (r: Vec<String>)
    ensures
        string_views(r@) == string_views(v@),
{
    let mut r: Vec<String> = Vec::new();
    let mut i: usize = 0;
    while i < v.len()
        invariant
            i <= v@.len(),
            string_views(r@) =~= string_views(v@).take(i as int),
        decreases v.len() - i,
    {
        let ghost r0 = r@;
        r.push(v[i].clone());
        assert(string_views(r@) =~= string_views(r0).push(v@[i as int]@));
        assert(string_views(v@).take(i + 1) =~= string_views(v@).take(i as int).push(v@[i as int]@));
        i = i + 1;
    }
    assert(string_views(v@).take(i as int) =~= string_views(v@));
    r
}


impl Default for CompletionResult {
    /// An empty result.
    fn default() -> (r: CompletionResult)
        ensures
            r.values@.len() == 0,
            r.descriptions@.len() == 0,
            r.active_help@.len() == 0,
    {
        CompletionResult::new()
    }
}

} // verus!
