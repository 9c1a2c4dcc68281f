//! The structured value tree that redactions replace and inspect.

use vstd::prelude::*;
use vstd::std_specs::cmp::PartialEqSpecImpl;
use vstd::std_specs::convert::FromSpecImpl;

verus! {

/// A captured value: a scalar, a list of values, or an ordered list of key/value entries.
#[derive(Debug)]
pub enum Content {
    Unit,
    Bool(bool),
    U64(u64),
    I64(i64),
    String(String),
    List(Vec<Content>),
    Dict(Vec<(Content, Content)>),
}

/// The mathematical value of a [`Content`]: text is a sequence of characters,
/// lists and dictionaries are sequences of values in their stored order.
pub enum ContentView {
    Unit,
    Bool(bool),
    U64(u64),
    I64(i64),
    String(Seq<char>),
    List(Seq<ContentView>),
    Dict(Seq<(ContentView, ContentView)>),
}

/// The value of a content, defined by recursion over the tree.
pub open spec fn content_view(c: Content) -> ContentView
    decreases c,
{
    match c {
        Content::Unit => ContentView::Unit,
        Content::Bool(b) => ContentView::Bool(b),
        Content::U64(n) => ContentView::U64(n),
        Content::I64(n) => ContentView::I64(n),
        Content::String(s) => ContentView::String(s@),
        Content::List(items) => ContentView::List(
            Seq::new(
                items.len() as nat,
                |i: int|
                    if 0 <= i < items.len() {
                        content_view(items[i])
                    } else {
                        ContentView::Unit
                    },
            ),
        ),
        Content::Dict(entries) => ContentView::Dict(
            Seq::new(
                entries.len() as nat,
                |i: int|
                    if 0 <= i < entries.len() {
                        (content_view(entries[i].0), content_view(entries[i].1))
                    } else {
                        (ContentView::Unit, ContentView::Unit)
                    },
            ),
        ),
    }
}

impl View for Content {
    type V = ContentView;

    open spec fn view(&self) -> ContentView {
        content_view(*self)
    }
}

/// The values of a list of contents, item by item.
pub open spec fn items_view(items: Seq<Content>) -> Seq<ContentView> {
    Seq::new(items.len(), |i: int| items[i]@)
}

/// The values of a list of key/value entries, entry by entry.
pub open spec fn entries_view(entries: Seq<(Content, Content)>) -> Seq<(ContentView, ContentView)> {
    Seq::new(entries.len(), |i: int| (entries[i].0@, entries[i].1@))
}

/// The value of a list is the list of the values of its items.
pub proof fn lemma_list_view(items: Vec<Content>)
    ensures
        Content::List(items)@ == ContentView::List(items_view(items@)),
{
    assert(Content::List(items)@->List_0 =~= items_view(items@));
}

/// The value of a dictionary is the list of the values of its entries.
pub proof fn lemma_dict_view(entries: Vec<(Content, Content)>)
    ensures
        Content::Dict(entries)@ == ContentView::Dict(entries_view(entries@)),
{
    assert(Content::Dict(entries)@->Dict_0 =~= entries_view(entries@));
}

fn clone_items(items: &Vec<Content>) -> (r: Vec<Content>)
    ensures
        items_view(r@) == items_view(items@),
    decreases items, 0nat,
{
    let mut out: Vec<Content> = Vec::new();
    let mut i: usize = 0;
    while i < items.len()
        invariant
            i <= items.len(),
            out.len() == i,
            forall|k: int| 0 <= k < i ==> out[k]@ == items[k]@,
        decreases items.len() - i,
    {
        let item = clone_content(&items[i]);
        out.push(item);
        i += 1;
    }
    assert(items_view(out@) =~= items_view(items@));
    out
}

fn clone_entries(entries: &Vec<(Content, Content)>) -> (r: Vec<(Content, Content)>)
    ensures
        entries_view(r@) == entries_view(entries@),
    decreases entries, 0nat,
{
    let mut out: Vec<(Content, Content)> = Vec::new();
    let mut i: usize = 0;
    while i < entries.len()
        invariant
            i <= entries.len(),
            out.len() == i,
            forall|k: int|
                0 <= k < i ==> out[k].0@ == entries[k].0@ && out[k].1@ == entries[k].1@,
        decreases entries.len() - i,
    {
        let key = clone_content(&entries[i].0);
        let value = clone_content(&entries[i].1);
        out.push((key, value));
        i += 1;
    }
    assert(entries_view(out@) =~= entries_view(entries@));
    out
}

fn clone_content(c: &Content) -> (r: Content)
    ensures
        r@ == c@,
    decreases c, 1nat,
{
    match c {
        Content::Unit => Content::Unit,
        Content::Bool(b) => Content::Bool(*b),
        Content::U64(n) => Content::U64(*n),
        Content::I64(n) => Content::I64(*n),
        Content::String(s) => Content::String(s.clone()),
        Content::List(items) => {
            let copy = clone_items(items);
            proof {
                lemma_list_view(*items);
                lemma_list_view(copy);
            }
            Content::List(copy)
        },
        Content::Dict(entries) => {
            let copy = clone_entries(entries);
            proof {
                lemma_dict_view(*entries);
                lemma_dict_view(copy);
            }
            Content::Dict(copy)
        },
    }
}

impl Clone for Content {
    /// A deep copy, of the same value.
    fn clone(&self) -> (r: Content)
        ensures
            r@ == self@,
    {
        clone_content(self)
    }
}

fn items_equal(a: &Vec<Content>, b: &Vec<Content>) -> (r: bool)
    ensures
        r == (items_view(a@) == items_view(b@)),
    decreases a, 0nat,
{
    if a.len() != b.len() {
        assert(items_view(a@).len() != items_view(b@).len());
        return false;
    }
    let mut i: usize = 0;
    while i < a.len()
        invariant
            i <= a.len(),
            a.len() == b.len(),
            forall|k: int| 0 <= k < i ==> a[k]@ == b[k]@,
        decreases a.len() - i,
    {
        if !content_equal(&a[i], &b[i]) {
            assert(items_view(a@)[i as int] != items_view(b@)[i as int]);
            return false;
        }
        i += 1;
    }
    assert(items_view(a@) =~= items_view(b@));
    true
}

fn entries_equal(a: &Vec<(Content, Content)>, b: &Vec<(Content, Content)>) -> (r: bool)
    ensures
        r == (entries_view(a@) == entries_view(b@)),
    decreases a, 0nat,
{
    if a.len() != b.len() {
        assert(entries_view(a@).len() != entries_view(b@).len());
        return false;
    }
    let mut i: usize = 0;
    while i < a.len()
        invariant
            i <= a.len(),
            a.len() == b.len(),
            forall|k: int| 0 <= k < i ==> a[k].0@ == b[k].0@ && a[k].1@ == b[k].1@,
        decreases a.len() - i,
    {
        if !content_equal(&a[i].0, &b[i].0) || !content_equal(&a[i].1, &b[i].1) {
            assert(entries_view(a@)[i as int] != entries_view(b@)[i as int]);
            return false;
        }
        i += 1;
    }
    assert(entries_view(a@) =~= entries_view(b@));
    true
}

fn content_equal(a: &Content, b: &Content) -> (r: bool)
    ensures
        r == (a@ == b@),
    decreases a, 1nat,
{
    match a {
        Content::Unit => match b {
            Content::Unit => true,
            _ => false,
        },
        Content::Bool(x) => match b {
            Content::Bool(y) => *x == *y,
            _ => false,
        },
        Content::U64(x) => match b {
            Content::U64(y) => *x == *y,
            _ => false,
        },
        Content::I64(x) => match b {
            Content::I64(y) => *x == *y,
            _ => false,
        },
        Content::String(x) => match b {
            Content::String(y) => *x == *y,
            _ => false,
        },
        Content::List(x) => match b {
            Content::List(y) => {
                proof {
                    lemma_list_view(*x);
                    lemma_list_view(*y);
                }
                items_equal(x, y)
            },
            _ => false,
        },
        Content::Dict(x) => match b {
            Content::Dict(y) => {
                proof {
                    lemma_dict_view(*x);
                    lemma_dict_view(*y);
                }
                entries_equal(x, y)
            },
            _ => false,
        },
    }
}

impl PartialEq for Content {
    /// Two contents are equal when they have the same value.
    fn eq(&self, other: &Content) -> (r: bool) {
        content_equal(self, other)
    }
}

impl PartialEqSpecImpl for Content {
    open spec fn obeys_eq_spec() -> bool {
        true
    }

    open spec fn eq_spec(&self, other: &Content) -> bool {
        self@ == other@
    }
}

impl From<bool> for Content {
    fn from(value: bool) -> (r: Content) {
        Content::Bool(value)
    }
}

impl FromSpecImpl<bool> for Content {
    open spec fn obeys_from_spec() -> bool {
        true
    }

    open spec fn from_spec(value: bool) -> Content {
        Content::Bool(value)
    }
}

impl From<u64> for Content {
    fn from(value: u64) -> (r: Content) {
        Content::U64(value)
    }
}

impl FromSpecImpl<u64> for Content {
    open spec fn obeys_from_spec() -> bool {
        true
    }

    open spec fn from_spec(value: u64) -> Content {
        Content::U64(value)
    }
}

impl From<i64> for Content {
    fn from(value: i64) -> (r: Content) {
        Content::I64(value)
    }
}

impl FromSpecImpl<i64> for Content {
    open spec fn obeys_from_spec() -> bool {
        true
    }

    open spec fn from_spec(value: i64) -> Content {
        Content::I64(value)
    }
}

impl From<String> for Content {
    fn from(value: String) -> (r: Content) {
        Content::String(value)
    }
}

impl FromSpecImpl<String> for Content {
    open spec fn obeys_from_spec() -> bool {
        true
    }

    open spec fn from_spec(value: String) -> Content {
        Content::String(value)
    }
}

impl From<Vec<Content>> for Content {
    fn from(value: Vec<Content>) -> (r: Content) {
        Content::List(value)
    }
}

impl FromSpecImpl<Vec<Content>> for Content {
    open spec fn obeys_from_spec() -> bool {
        true
    }

    open spec fn from_spec(value: Vec<Content>) -> Content {
        Content::List(value)
    }
}

impl<'a> From<&'a str> for Content {
    /// The text as a content.
    fn from(value: &'a str) -> (r: Content)
        ensures
            r@ == ContentView::String(value@),
    {
        Content::String(value.to_owned())
    }
}

impl<'a> FromSpecImpl<&'a str> for Content {
    /// The conversion makes a new string, so its result is stated by `from`
    /// itself, by its value.
    open spec fn obeys_from_spec() -> bool {
        false
    }

    open spec fn from_spec(value: &'a str) -> Content {
        Content::String(arbitrary())
    }
}

} // verus!
