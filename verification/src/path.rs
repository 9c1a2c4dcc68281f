//! Where in a value tree a value stands.

use vstd::prelude::*;
use vstd::string::StringExecFns;

use crate::decimal::push_decimal;
use crate::grammar::{lemma_text_push, segment_text, SegmentView, selector_text};

verus! {

/// One step from a value to one of its children.
#[derive(Debug)]
pub enum PathItem {
    /// The entry of a dictionary with this key.
    Key(String),
    /// The item of a list at this position.
    Index(u64),
}

/// The mathematical value of a [`PathItem`].
pub enum PathItemView {
    Key(Seq<char>),
    Index(u64),
}

impl View for PathItem {
    type V = PathItemView;

    open spec fn view(&self) -> PathItemView {
        match self {
            PathItem::Key(name) => PathItemView::Key(name@),
            PathItem::Index(n) => PathItemView::Index(*n),
        }
    }
}

/// The segment that picks one step only.
pub open spec fn item_segment(item: PathItemView) -> SegmentView {
    match item {
        PathItemView::Key(name) => SegmentView::Key(name),
        PathItemView::Index(n) => SegmentView::Index(n),
    }
}

/// The segments that pick the steps of a path, one for each step.
pub open spec fn path_segments(path: Seq<PathItemView>) -> Seq<SegmentView> {
    Seq::new(path.len(), |i: int| item_segment(path[i]))
}

/// A path as it is written: `.` and the key for a key, the index in square
/// brackets for an index, as in `.users[0].id`.
pub open spec fn path_text(path: Seq<PathItemView>) -> Seq<char> {
    selector_text(path_segments(path))
}

/// Writes a step of a path at the end of `out`.
fn push_item(out: &mut String, item: &PathItem)
    ensures
        final(out)@ == old(out)@ + segment_text(item_segment(item@)),
{
    proof {
        reveal_strlit(".");
        reveal_strlit("[");
        reveal_strlit("]");
    }
    match item {
        PathItem::Key(name) => {
            out.append(".");
            out.append(name.as_str());
        },
        PathItem::Index(n) => {
            out.append("[");
            push_decimal(out, *n);
            out.append("]");
        },
    }
    assert(out@ =~= old(out)@ + segment_text(item_segment(item@)));
}

/// The place of a value in a tree: the steps that lead to it from the root.
/// A callback of a redaction is told the place of the value that it is given.
#[derive(Debug)]
pub struct ContentPath {
    items: Vec<PathItem>,
}

impl View for ContentPath {
    type V = Seq<PathItemView>;

    closed spec fn view(&self) -> Seq<PathItemView> {
        Seq::new(self.items.len() as nat, |i: int| self.items[i]@)
    }
}

impl ContentPath {
    /// The path made of the given steps.
    pub fn new(items: Vec<PathItem>) -> (r: ContentPath)
        ensures
            r@ == Seq::new(items.len() as nat, |i: int| items[i]@),
    {
        ContentPath { items }
    }

    /// The path as it is written, as in `.users[0].id`.
    pub fn to_string(&self) -> (r: String)
        ensures
            r@ == path_text(self@),
    {
        let ghost segs = path_segments(self@);
        let mut out = String::new();
        let mut i: usize = 0;
        assert(segs.take(0) =~= Seq::<SegmentView>::empty());
        while i < self.items.len()
            invariant
                i <= self.items.len(),
                segs == path_segments(self@),
                segs.len() == self.items.len(),
                out@ == selector_text(segs.take(i as int)),
            decreases self.items.len() - i,
        {
            proof {
                lemma_text_push(segs.take(i as int), segs[i as int]);
                assert(segs.take(i as int).push(segs[i as int]) =~= segs.take(i + 1));
                assert(segs[i as int] == item_segment(self.items[i as int]@));
            }
            push_item(&mut out, &self.items[i]);
            i += 1;
        }
        assert(segs.take(self.items.len() as int) =~= segs);
        out
    }

    /// The steps of the path, from the root down.
    pub fn items(&self) -> (r: &Vec<PathItem>)
        ensures
            self@ == Seq::new(r.len() as nat, |i: int| r[i]@),
    {
        &self.items
    }
}

} // verus!
