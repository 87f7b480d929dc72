//! Completion results held as one list of items, each value together with
//! its description, convertible to and from [`CompletionResult`].

use vstd::prelude::*;
use std::borrow::Cow;
use crate::active_help::{condition_admits, condition_total, ActiveHelp, HelpCondition};
use crate::context::Context;
use crate::completion::CompletionResult;
use crate::completion_item::{cow_into_owned, item_view, CompletionItem, IntoCowText};
use crate::text::{IntoText, string_views};

verus! {

/// The texts of a list of items.
pub open spec fn item_views(items: Seq<CompletionItem>) -> Seq<(Seq<char>, Option<Seq<char>>)> {
    Seq::new(items.len(), |i: int| item_view(items[i]))
}

/// The values of a list of item texts.
pub open spec fn view_values(iv: Seq<(Seq<char>, Option<Seq<char>>)>) -> Seq<Seq<char>> {
    Seq::new(iv.len(), |i: int| iv[i].0)
}

/// The descriptions of a list of item texts, empty where an item has none.
pub open spec fn view_descriptions(iv: Seq<(Seq<char>, Option<Seq<char>>)>) -> Seq<Seq<char>> {
    Seq::new(
        iv.len(),
        |i: int|
            match iv[i].1 {
                Some(d) => d,
                None => Seq::empty(),
            },
    )
}

/// Item texts paired from values and descriptions (up to the shorter of
/// the two), an empty description meaning none.
pub open spec fn items_from(values: Seq<Seq<char>>, descs: Seq<Seq<char>>) -> Seq<
    (Seq<char>, Option<Seq<char>>),
> {
    let n = if values.len() <= descs.len() {
        values.len()
    } else {
        descs.len()
    };
    Seq::new(
        n,
        |i: int|
            (
                values[i],
                if descs[i].len() == 0 {
                    None
                } else {
                    Some(descs[i])
                },
            ),
    )
}

/// Completion items with hints.
#[derive(Clone)]
pub struct CompletionResultOptimized {
    /// The items to suggest.
    pub items: Vec<CompletionItem>,
    /// Hint messages.
    pub active_help: Vec<ActiveHelp>,
}

impl CompletionResultOptimized {
    /// An empty result.
    pub fn new() -> (r: CompletionResultOptimized)
        ensures
            r.items@.len() == 0,
            r.active_help@.len() == 0,
    {
        CompletionResultOptimized { items: Vec::new(), active_help: Vec::new() }
    }


    /// Adds a value without a description.
    pub fn add<V: IntoCowText>(self, value: V) -> (r: CompletionResultOptimized)
        ensures
            item_views(r.items@) == item_views(self.items@).push((value.text(), None::<Seq<char>>)),
            (r.items@.last().value is Borrowed) == value.stays_borrowed(),
            r.active_help@ == self.active_help@,
    {
        let mut s = self;
        let ghost i0 = s.items@;
        s.items.push(CompletionItem::new(value));
        assert(item_views(s.items@) =~= item_views(i0).push((value.text(), None::<Seq<char>>)));
        s
    }

    /// Adds a value with a description.
    pub fn add_with_description<V: IntoCowText, D: IntoCowText>(self, value: V, desc: D) -> (r:
        CompletionResultOptimized)
        ensures
            item_views(r.items@) == item_views(self.items@).push((value.text(), Some(desc.text()))),
            (r.items@.last().value is Borrowed) == value.stays_borrowed(),
            (r.items@.last().description->0 is Borrowed) == desc.stays_borrowed(),
            r.active_help@ == self.active_help@,
    {
        let mut s = self;
        let ghost i0 = s.items@;
        s.items.push(CompletionItem::with_description(value, desc));
        assert(item_views(s.items@) =~= item_views(i0).push((value.text(), Some(desc.text()))));
        s
    }

    /// Adds several values without descriptions.
    pub fn extend<V: IntoCowText>(self, values: Vec<V>) -> (r: CompletionResultOptimized)
        ensures
            item_views(r.items@) == item_views(self.items@) + Seq::new(
                values@.len(),
                |i: int| (values@[i].text(), None::<Seq<char>>),
            ),
            r.active_help@ == self.active_help@,
    {
        let mut s = self;
        let ghost i0 = item_views(s.items@);
        let ghost vals = values@;
        let ghost all = Seq::new(vals.len(), |i: int| (vals[i].text(), None::<Seq<char>>));
        let mut rest = values;
        let ghost n = rest@.len();
        while rest.len() > 0
            invariant
                n == vals.len(),
                all.len() == n,
                forall|i: int| 0 <= i < n ==> #[trigger] all[i] == (vals[i].text(), None::<Seq<char>>),
                rest@.len() <= n,
                rest@ == vals.skip(n - rest@.len()),
                item_views(s.items@) =~= i0 + all.take(n - rest@.len()),
                s.active_help@ == self.active_help@,
            decreases rest@.len(),
        {
            let ghost k = n - rest@.len();
            let ghost before = s.items@;
            let v = rest.remove(0);
            assert(v == vals[k]);
            s.items.push(CompletionItem::new(v));
            assert(rest@ =~= vals.skip(k + 1));
            assert(item_views(s.items@) =~= item_views(before).push(all[k]));
            assert(all.take(k + 1) =~= all.take(k).push(all[k]));
        }
        assert(all.take(n as int) =~= all);
        s
    }

    /// Adds several items.
    pub fn extend_items(self, items: Vec<CompletionItem>) -> (r: CompletionResultOptimized)
        ensures
            r.items@ == self.items@ + items@,
            r.active_help@ == self.active_help@,
    {
        let mut s = self;
        let mut it = items;
        s.items.append(&mut it);
        s
    }

    /// Adds a hint.
    pub fn add_help(self, help: ActiveHelp) -> (r: CompletionResultOptimized)
        ensures
            r.items@ == self.items@,
            r.active_help@ == self.active_help@.push(help),
    {
        let mut s = self;
        s.active_help.push(help);
        s
    }

    /// Adds a hint that is always shown.
    pub fn add_help_text<S: IntoText>(self, message: S) -> (r: CompletionResultOptimized)
        ensures
            r.items@ == self.items@,
            r.active_help@.len() == self.active_help@.len() + 1,
            r.active_help@.take(self.active_help@.len() as int) == self.active_help@,
            r.active_help@.last().message@ == message.text(),
            r.active_help@.last().condition is None,
    {
        let mut s = self;
        let ghost h0 = s.active_help@;
        s.active_help.push(ActiveHelp::new(message));
        assert(s.active_help@.take(h0.len() as int) =~= h0);
        s
    }

    /// Adds a hint shown only when `condition` holds.
    pub fn add_conditional_help<S: IntoText, F: Fn(&Context) -> bool + Send + Sync + 'static>(
        self,
        message: S,
        condition: F,
    ) -> (r: CompletionResultOptimized)
        requires
            condition_total(condition),
        ensures
            r.items@ == self.items@,
            r.active_help@.len() == self.active_help@.len() + 1,
            r.active_help@.take(self.active_help@.len() as int) == self.active_help@,
            r.active_help@.last().message@ == message.text(),
            r.active_help@.last().condition is Some,
            forall|c: Context, b: bool|
                #[trigger] r.active_help@.last().condition->0.admits(c, b) == condition_admits(
                    condition,
                    c,
                    b,
                ),
    {
        let mut s = self;
        let ghost h0 = s.active_help@;
        s.active_help.push(ActiveHelp::with_condition(message, condition));
        assert(s.active_help@.take(h0.len() as int) =~= h0);
        s
    }

    /// This result followed by `other`.
    pub fn merge(self, other: CompletionResultOptimized) -> (r: CompletionResultOptimized)
        ensures
            r.items@ == self.items@ + other.items@,
            r.active_help@ == self.active_help@ + other.active_help@,
    {
        let mut s = self;
        let mut o = other;
        s.items.append(&mut o.items);
        s.active_help.append(&mut o.active_help);
        s
    }

    /// The same completions as parallel value and description lists (an
    /// item without a description gets an empty one).
    pub fn into_legacy(self) -> (r: CompletionResult)
        ensures
            string_views(r.values@) == view_values(item_views(self.items@)),
            string_views(r.descriptions@) == view_descriptions(item_views(self.items@)),
            r.active_help@ == self.active_help@,
    {
        let mut result = CompletionResult::new();
        let ghost iv = item_views(self.items@);
        let CompletionResultOptimized { items, active_help } = self;
        let mut rest = items;
        let ghost n = rest@.len();
        let ghost all = rest@;
        while rest.len() > 0
            invariant
                n == all.len(),
                iv == item_views(all),
                rest@.len() <= n,
                rest@ == all.skip(n - rest@.len()),
                string_views(result.values@) =~= view_values(iv).take(n - rest@.len()),
                string_views(result.descriptions@) =~= view_descriptions(iv).take(n - rest@.len()),
            decreases rest@.len(),
        {
            let ghost k = n - rest@.len();
            let ghost v0 = result.values@;
            let ghost d0 = result.descriptions@;
            let item = rest.remove(0);
            assert(item == all[k]);
            assert(rest@ =~= all.skip(k + 1));
            let CompletionItem { value, description } = item;
            result.values.push(cow_into_owned(value));
            let d = match description {
                Some(d) => cow_into_owned(d),
                None => String::new(),
            };
            result.descriptions.push(d);
            assert(string_views(result.values@) =~= string_views(v0).push(iv[k].0));
            assert(view_values(iv).take(k + 1) =~= view_values(iv).take(k).push(iv[k].0));
            assert(string_views(result.descriptions@) =~= string_views(d0).push(view_descriptions(iv)[k]));
            assert(view_descriptions(iv).take(k + 1) =~= view_descriptions(iv).take(k).push(
                view_descriptions(iv)[k],
            ));
        }
        assert(view_values(iv).take(n as int) =~= view_values(iv));
        assert(view_descriptions(iv).take(n as int) =~= view_descriptions(iv));
        result.active_help = active_help;
        result
    }

    /// Items from parallel value and description lists, paired up to the
    /// shorter list; an empty description becomes none. All items are owned.
    pub fn from_legacy(legacy: CompletionResult) -> (r: CompletionResultOptimized)
        ensures
            item_views(r.items@) == items_from(
                string_views(legacy.values@),
                string_views(legacy.descriptions@),
            ),
            forall|i: int| 0 <= i < r.items@.len() ==> (#[trigger] r.items@[i]).value is Owned,
            r.active_help@ == legacy.active_help@,
    {
        let CompletionResult { values, descriptions, active_help } = legacy;
        let ghost target = items_from(string_views(values@), string_views(descriptions@));
        let mut items: Vec<CompletionItem> = Vec::new();
        let mut vs = values;
        let mut ds = descriptions;
        let ghost all_v = vs@;
        let ghost all_d = ds@;
        let total = vs.len();
        let mut k: usize = 0;
        while vs.len() > 0 && ds.len() > 0
            invariant
                total == all_v.len(),
                k <= all_v.len(),
                k <= all_d.len(),
                vs@ == all_v.skip(k as int),
                ds@ == all_d.skip(k as int),
                target == items_from(string_views(all_v), string_views(all_d)),
                item_views(items@) =~= target.take(k as int),
                forall|i: int| 0 <= i < items@.len() ==> (#[trigger] items@[i]).value is Owned,
            decreases vs@.len(),
        {
            let ghost before = items@;
            let v = vs.remove(0);
            let d = ds.remove(0);
            assert(v == all_v[k as int]);
            assert(d == all_d[k as int]);
            assert(vs@ =~= all_v.skip(k + 1));
            assert(ds@ =~= all_d.skip(k + 1));
            let item = if d.as_str().is_empty() {
                CompletionItem::new(v)
            } else {
                CompletionItem::with_description(v, d)
            };
            items.push(item);
            assert(item_views(items@) =~= item_views(before).push(target[k as int]));
            assert(target.take(k + 1) =~= target.take(k as int).push(target[k as int]));
            k = k + 1;
        }
        assert(target.take(k as int) =~= target);
        CompletionResultOptimized { items, active_help }
    }
}


/// Converting a result with one description per value to items and back
/// (`from_legacy`, then `into_legacy`) gives the same values and
/// descriptions.
pub proof fn lemma_legacy_round_trip(values: Seq<Seq<char>>, descs: Seq<Seq<char>>)
    requires
        values.len() == descs.len(),
    ensures
        view_values(items_from(values, descs)) == values,
        view_descriptions(items_from(values, descs)) == descs,
{
    let iv = items_from(values, descs);
    assert(view_values(iv) =~= values);
    assert forall|i: int| 0 <= i < descs.len() implies #[trigger] view_descriptions(iv)[i]
        == descs[i] by {
        if descs[i].len() == 0 {
            assert(descs[i] =~= Seq::<char>::empty());
        }
    }
    assert(view_descriptions(iv) =~= descs);
}

/// Converting items to parallel lists and back (`into_legacy`, then
/// `from_legacy`) gives the same items, provided no item carries an empty
/// description (which comes back as none).
pub proof fn lemma_items_round_trip(iv: Seq<(Seq<char>, Option<Seq<char>>)>)
    requires
        forall|i: int| 0 <= i < iv.len() ==> (#[trigger] iv[i]).1 != Some(Seq::<char>::empty()),
    ensures
        items_from(view_values(iv), view_descriptions(iv)) == iv,
{
    let back = items_from(view_values(iv), view_descriptions(iv));
    assert forall|i: int| 0 <= i < iv.len() implies #[trigger] back[i] == iv[i] by {
        match iv[i].1 {
            Some(d) => {
                if d.len() == 0 {
                    assert(d =~= Seq::<char>::empty());
                }
            },
            None => {},
        }
    }
    assert(back =~= iv);
}

impl Default for CompletionResultOptimized {
    /// An empty result.
    fn default() -> (r: CompletionResultOptimized)
        ensures
            r.items@.len() == 0,
            r.active_help@.len() == 0,
    {
        CompletionResultOptimized::new()
    }
}

} // verus!
