//! A completion value with an optional description, held as `Cow` so that
//! static strings need no allocation.

use vstd::prelude::*;
use std::borrow::Cow;

verus! {

/// Values that can become a `Cow<'static, str>`: a `&'static str` is
/// borrowed, a `String` owned.
pub trait IntoCowText {
    /// The characters of the value.
    spec fn text(&self) -> Seq<char>;

    /// Whether the value is kept borrowed.
    spec fn stays_borrowed(&self) -> bool;

    fn into_cow(self) -> (c: Cow<'static, str>)
        ensures
            c@ == self.text(),
            (c is Borrowed) == self.stays_borrowed(),
    ;
}

impl IntoCowText for &'static str {
    open spec fn text(&self) -> Seq<char> {
        (*self)@
    }

    open spec fn stays_borrowed(&self) -> bool {
        true
    }

    fn into_cow(self) -> (c: Cow<'static, str>) {
        Cow::Borrowed(self)
    }
}

impl IntoCowText for String {
    open spec fn text(&self) -> Seq<char> {
        self@
    }

    open spec fn stays_borrowed(&self) -> bool {
        false
    }

    fn into_cow(self) -> (c: Cow<'static, str>) {
        Cow::Owned(self)
    }
}

impl IntoCowText for Cow<'static, str> {
    open spec fn text(&self) -> Seq<char> {
        self@
    }

    open spec fn stays_borrowed(&self) -> bool {
        self is Borrowed
    }

    fn into_cow(self) -> (c: Cow<'static, str>) {
        self
    }
}

/// The text of a `Cow<str>` as a `&str`.
pub fn cow_str<'a>(c: &'a Cow<'static, str>) -> (r: &'a str)
    ensures
        r@ == c@,
{
    match c {
        Cow::Borrowed(b) => *b,
        Cow::Owned(o) => o.as_str(),
    }
}

/// An owned copy of the text of a `Cow<str>` (`Cow::into_owned`).
pub fn cow_into_owned(c: Cow<'static, str>) -> (r: String)
    ensures
        r@ == c@,
{
    match c {
        Cow::Borrowed(b) => b.to_owned(),
        Cow::Owned(o) => o,
    }
}

/// One completion value and its description, if any.
#[derive(Debug)]
pub struct CompletionItem {
    /// The value.
    pub value: Cow<'static, str>,
    /// The description.
    pub description: Option<Cow<'static, str>>,
}

/// A copy of a `Cow<str>`, borrowed when `c` is.
pub fn cow_copy(c: &Cow<'static, str>) -> (r: Cow<'static, str>)
    ensures
        r@ == c@,
        (r is Borrowed) == (c is Borrowed),
{
    match c {
        Cow::Borrowed(b) => Cow::Borrowed(*b),
        Cow::Owned(o) => Cow::Owned(o.clone()),
    }
}

impl Clone for CompletionItem {
    fn clone(&self) -> (r: CompletionItem)
        ensures
            item_view(r) == item_view(*self),
    {
        let description = match &self.description {
            Some(d) => Some(cow_copy(d)),
            None => None,
        };
        CompletionItem { value: cow_copy(&self.value), description }
    }
}

/// The text of an item: its value and its description, if any.
pub open spec fn item_view(i: CompletionItem) -> (Seq<char>, Option<Seq<char>>) {
    (
        i.value@,
        match i.description {
            Some(d) => Some(d@),
            None => None,
        },
    )
}

impl CompletionItem {
    /// An item without a description.
    pub fn new<V: IntoCowText>(value: V) -> (i: CompletionItem)
        ensures
            item_view(i) == (value.text(), None::<Seq<char>>),
            (i.value is Borrowed) == value.stays_borrowed(),
    {
        CompletionItem { value: value.into_cow(), description: None }
    }

    /// An item with a description.
    pub fn with_description<V: IntoCowText, D: IntoCowText>(value: V, desc: D) -> (i:
        CompletionItem)
        ensures
            item_view(i) == (value.text(), Some(desc.text())),
            (i.value is Borrowed) == value.stays_borrowed(),
            (i.description->0 is Borrowed) == desc.stays_borrowed(),
    {
        CompletionItem { value: value.into_cow(), description: Some(desc.into_cow()) }
    }

    /// The description, or `""` when there is none.
    pub fn description_or_empty(&self) -> (r: &str)
        ensures
            r@ == match self.description {
                Some(d) => d@,
                None => Seq::<char>::empty(),
            },
    {
        match &self.description {
            Some(d) => cow_str(d),
            None => {
                proof {
                    reveal_strlit("");
                }
                ""
            },
        }
    }
}

impl From<&'static str> for CompletionItem {
    /// An item borrowing `value`, without a description.
    fn from(value: &'static str) -> (r: CompletionItem) {
        CompletionItem { value: Cow::Borrowed(value), description: None }
    }
}

impl vstd::std_specs::convert::FromSpecImpl<&'static str> for CompletionItem {
    open spec fn obeys_from_spec() -> bool {
        true
    }

    open spec fn from_spec(value: &'static str) -> CompletionItem {
        CompletionItem { value: Cow::Borrowed(value), description: None }
    }
}

impl From<String> for CompletionItem {
    /// An item owning `value`, without a description.
    fn from(value: String) -> (r: CompletionItem) {
        CompletionItem { value: Cow::Owned(value), description: None }
    }
}

impl vstd::std_specs::convert::FromSpecImpl<String> for CompletionItem {
    open spec fn obeys_from_spec() -> bool {
        true
    }

    open spec fn from_spec(value: String) -> CompletionItem {
        CompletionItem { value: Cow::Owned(value), description: None }
    }
}

impl From<(&'static str, &'static str)> for CompletionItem {
    /// An item borrowing a value and its description.
    fn from(pair: (&'static str, &'static str)) -> (r: CompletionItem) {
        CompletionItem { value: Cow::Borrowed(pair.0), description: Some(Cow::Borrowed(pair.1)) }
    }
}

impl vstd::std_specs::convert::FromSpecImpl<(&'static str, &'static str)> for CompletionItem {
    open spec fn obeys_from_spec() -> bool {
        true
    }

    open spec fn from_spec(pair: (&'static str, &'static str)) -> CompletionItem {
        CompletionItem { value: Cow::Borrowed(pair.0), description: Some(Cow::Borrowed(pair.1)) }
    }
}

} // verus!
