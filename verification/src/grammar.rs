//! The grammar of selectors: what their text is, and that a text is read as
//! a selector in one way at most.

use vstd::prelude::*;

use crate::decimal::{decimal, is_decimal, is_digit, lemma_decimal};
use crate::path::PathItemView;

verus! {

/// The mathematical value of a segment of a selector.
pub enum SegmentView {
    Key(Seq<char>),
    Wildcard,
    Index(u64),
    All,
}

/// A character that a name may start with: a letter of `a` to `z` or `A` to
/// `Z`, or `_`.
pub open spec fn is_ident_start(c: char) -> bool {
    ('a' <= c && c <= 'z') || ('A' <= c && c <= 'Z') || c == '_'
}

/// A character that a name may go on with: one that it may start with, or a
/// digit.
pub open spec fn is_ident_char(c: char) -> bool {
    is_ident_start(c) || is_digit(c)
}

/// A name: a letter or `_`, followed by letters, digits or `_`.
pub open spec fn is_ident(s: Seq<char>) -> bool {
    &&& s.len() > 0
    &&& is_ident_start(s[0])
    &&& forall|i: int| 0 <= i < s.len() ==> is_ident_char(#[trigger] s[i])
}

/// The text of one segment.
pub open spec fn segment_text(seg: SegmentView) -> Seq<char> {
    match seg {
        SegmentView::Key(name) => seq!['.'] + name,
        SegmentView::Wildcard => seq!['.', '*'],
        SegmentView::Index(n) => seq!['['] + decimal(n as nat) + seq![']'],
        SegmentView::All => seq!['[', ']'],
    }
}

/// A segment that can be written down: the key of a `Key` is a name.
pub open spec fn segment_ok(seg: SegmentView) -> bool {
    seg matches SegmentView::Key(name) ==> is_ident(name)
}

/// The text of a list of segments: the texts of the segments, one after the other.
pub open spec fn selector_text(segs: Seq<SegmentView>) -> Seq<char>
    decreases segs.len(),
{
    if segs.len() == 0 {
        Seq::empty()
    } else {
        segment_text(segs[0]) + selector_text(segs.drop_first())
    }
}

/// Whether a segment admits a step of a path: a key or an index admits
/// itself, `.*` admits every step, `[]` every index.
pub open spec fn segment_matches(seg: SegmentView, item: PathItemView) -> bool {
    match seg {
        SegmentView::Key(name) => item == PathItemView::Key(name),
        SegmentView::Wildcard => true,
        SegmentView::Index(n) => item == PathItemView::Index(n),
        SegmentView::All => item is Index,
    }
}

/// Whether a list of segments picks the value at a path.
pub open spec fn selector_matches(segs: Seq<SegmentView>, path: Seq<PathItemView>) -> bool {
    &&& segs.len() == path.len()
    &&& forall|i: int| 0 <= i < segs.len() ==> segment_matches(#[trigger] segs[i], path[i])
}

/// `segs` is a way to read `text` as a list of segments.
pub open spec fn parses_as(text: Seq<char>, segs: Seq<SegmentView>) -> bool {
    &&& forall|i: int| 0 <= i < segs.len() ==> segment_ok(#[trigger] segs[i])
    &&& selector_text(segs) == text
}

/// `text` is a selector: it reads as one or more segments.
pub open spec fn is_selector(text: Seq<char>) -> bool {
    exists|segs: Seq<SegmentView>| segs.len() > 0 && #[trigger] parses_as(text, segs)
}

/// The reading of a selector's text (a text has no more than one).
pub open spec fn reading(text: Seq<char>) -> Seq<SegmentView> {
    choose|segs: Seq<SegmentView>| segs.len() > 0 && #[trigger] parses_as(text, segs)
}

/// A segment ends at `end` in `text` only where the text ends or another segment starts.
pub open spec fn boundary(text: Seq<char>, end: int) -> bool {
    end == text.len() || (0 <= end < text.len() && (text[end] == '.' || text[end] == '['))
}

/// `seg` is written in `text` from `start` up to `end`, and ends at a boundary.
pub open spec fn segment_at(text: Seq<char>, start: int, seg: SegmentView, end: int) -> bool {
    &&& segment_ok(seg)
    &&& 0 <= start < end <= text.len()
    &&& text.subrange(start, end) == segment_text(seg)
    &&& boundary(text, end)
}

/// The text of a list with one more segment at its end.
pub proof fn lemma_text_push(segs: Seq<SegmentView>, seg: SegmentView)
    ensures
        selector_text(segs.push(seg)) == selector_text(segs) + segment_text(seg),
    decreases segs.len(),
{
    let all = segs.push(seg);
    if segs.len() == 0 {
        assert(all.drop_first() =~= Seq::<SegmentView>::empty());
        assert(selector_text(all.drop_first()) =~= Seq::<char>::empty());
        assert(selector_text(all) =~= selector_text(segs) + segment_text(seg));
    } else {
        lemma_text_push(segs.drop_first(), seg);
        assert(all.drop_first() =~= segs.drop_first().push(seg));
        assert(selector_text(all) =~= selector_text(segs) + segment_text(seg));
    }
}

/// The text of a list of segments is the text of its first `k` segments, then that of the rest.
pub proof fn lemma_text_split(segs: Seq<SegmentView>, k: int)
    requires
        0 <= k <= segs.len(),
    ensures
        selector_text(segs) == selector_text(segs.take(k)) + selector_text(segs.skip(k)),
    decreases k,
{
    if k == 0 {
        assert(segs.take(0) =~= Seq::<SegmentView>::empty());
        assert(segs.skip(0) =~= segs);
        assert(selector_text(segs) =~= selector_text(segs.take(k)) + selector_text(segs.skip(k)));
    } else {
        lemma_text_split(segs, k - 1);
        lemma_text_push(segs.take(k - 1), segs[k - 1]);
        assert(segs.take(k - 1).push(segs[k - 1]) =~= segs.take(k));
        assert(segs.skip(k - 1).drop_first() =~= segs.skip(k));
        assert(segs.skip(k - 1)[0] == segs[k - 1]);
        assert(selector_text(segs) =~= selector_text(segs.take(k)) + selector_text(segs.skip(k)));
    }
}

/// Every segment's text starts with `.` or `[` and has at least two characters.
pub proof fn lemma_segment_start(seg: SegmentView)
    requires
        segment_ok(seg),
    ensures
        segment_text(seg).len() >= 2,
        segment_text(seg)[0] == '.' || segment_text(seg)[0] == '[',
{
    match seg {
        SegmentView::Index(n) => {
            lemma_decimal(n as nat);
        },
        _ => {},
    }
}

/// A list of segments that is not empty has a text that starts with `.` or `[`.
pub proof fn lemma_text_start(segs: Seq<SegmentView>)
    requires
        segs.len() > 0,
        segment_ok(segs[0]),
    ensures
        selector_text(segs).len() >= 2,
        selector_text(segs)[0] == '.' || selector_text(segs)[0] == '[',
{
    lemma_segment_start(segs[0]);
}

/// At one place of a text at most one segment is written.
pub proof fn lemma_segment_unique(
    text: Seq<char>,
    start: int,
    a: SegmentView,
    end_a: int,
    b: SegmentView,
    end_b: int,
)
    requires
        segment_at(text, start, a, end_a),
        segment_at(text, start, b, end_b),
    ensures
        a == b,
        end_a == end_b,
{
    let ta = segment_text(a);
    let tb = segment_text(b);
    lemma_segment_start(a);
    lemma_segment_start(b);
    assert(ta.len() == end_a - start);
    assert(tb.len() == end_b - start);
    assert forall|k: int| 0 <= k < ta.len() implies ta[k] == text[start + k] by {
        assert(text.subrange(start, end_a)[k] == text[start + k]);
    }
    assert forall|k: int| 0 <= k < tb.len() implies tb[k] == text[start + k] by {
        assert(text.subrange(start, end_b)[k] == text[start + k]);
    }
    assert(ta[0] == tb[0]);
    assert(ta[1] == tb[1]);
    match a {
        SegmentView::Key(na) => {
            assert(ta[1] == na[0]);
            match b {
                SegmentView::Key(nb) => {
                    if end_a < end_b {
                        assert(tb[end_a - start] == nb[end_a - start - 1]);
                        assert(is_ident_char(nb[end_a - start - 1]));
                    }
                    if end_b < end_a {
                        assert(ta[end_b - start] == na[end_b - start - 1]);
                        assert(is_ident_char(na[end_b - start - 1]));
                    }
                    assert(na =~= nb) by {
                        assert forall|k: int| 0 <= k < na.len() implies na[k] == nb[k] by {
                            assert(ta[k + 1] == na[k]);
                            assert(tb[k + 1] == nb[k]);
                        }
                    }
                },
                SegmentView::Wildcard => {},
                SegmentView::Index(_) => {},
                SegmentView::All => {},
            }
        },
        SegmentView::Wildcard => {
            match b {
                SegmentView::Key(nb) => {
                    assert(tb[1] == nb[0]);
                },
                _ => {},
            }
        },
        SegmentView::Index(na) => {
            lemma_decimal(na as nat);
            let da = decimal(na as nat);
            assert(ta[1] == da[0]);
            match b {
                SegmentView::Index(nb) => {
                    lemma_decimal(nb as nat);
                    let db = decimal(nb as nat);
                    if end_a < end_b {
                        assert(ta[end_a - start - 1] == ']');
                        assert(tb[end_a - start - 1] == db[end_a - start - 2]);
                        assert(is_digit(db[end_a - start - 2]));
                    }
                    if end_b < end_a {
                        assert(tb[end_b - start - 1] == ']');
                        assert(ta[end_b - start - 1] == da[end_b - start - 2]);
                        assert(is_digit(da[end_b - start - 2]));
                    }
                    assert(da =~= db) by {
                        assert forall|k: int| 0 <= k < da.len() implies da[k] == db[k] by {
                            assert(ta[k + 1] == da[k]);
                            assert(tb[k + 1] == db[k]);
                        }
                    }
                },
                SegmentView::All => {
                    assert(is_digit(da[0]));
                },
                _ => {},
            }
        },
        SegmentView::All => {
            match b {
                SegmentView::Index(nb) => {
                    lemma_decimal(nb as nat);
                    assert(tb[1] == decimal(nb as nat)[0]);
                    assert(is_digit(decimal(nb as nat)[0]));
                },
                _ => {},
            }
        },
    }
}

/// In a reading of a text, each segment is written where the segments before it end.
pub proof fn lemma_segment_of_reading(text: Seq<char>, segs: Seq<SegmentView>, n: int)
    requires
        parses_as(text, segs),
        0 <= n < segs.len(),
    ensures
        segment_at(
            text,
            selector_text(segs.take(n)).len() as int,
            segs[n],
            selector_text(segs.take(n + 1)).len() as int,
        ),
{
    let before = selector_text(segs.take(n));
    let upto = selector_text(segs.take(n + 1));
    let rest = selector_text(segs.skip(n + 1));
    lemma_text_split(segs, n + 1);
    lemma_text_push(segs.take(n), segs[n]);
    assert(segs.take(n).push(segs[n]) =~= segs.take(n + 1));
    assert(segment_ok(segs[n]));
    lemma_segment_start(segs[n]);
    assert(text =~= before + segment_text(segs[n]) + rest);
    assert(text.subrange(before.len() as int, upto.len() as int) =~= segment_text(segs[n]));
    if n + 1 < segs.len() {
        let tail = segs.skip(n + 1);
        assert(tail[0] == segs[n + 1]);
        assert(segment_ok(segs[n + 1]));
        lemma_text_start(tail);
        assert(text[upto.len() as int] == rest[0]);
    } else {
        assert(segs.skip(n + 1) =~= Seq::<SegmentView>::empty());
        assert(rest =~= Seq::<char>::empty());
    }
}

/// A text has at most one reading as a list of segments.
pub proof fn lemma_reading_unique(text: Seq<char>, a: Seq<SegmentView>, b: Seq<SegmentView>)
    requires
        parses_as(text, a),
        parses_as(text, b),
    ensures
        a == b,
    decreases a.len(),
{
    if a.len() == 0 || b.len() == 0 {
        if a.len() > 0 {
            lemma_text_start(a);
        }
        if b.len() > 0 {
            lemma_text_start(b);
        }
        assert(a =~= b);
    } else {
        lemma_segment_of_reading(text, a, 0);
        lemma_segment_of_reading(text, b, 0);
        assert(a.take(0) =~= Seq::<SegmentView>::empty());
        assert(b.take(0) =~= Seq::<SegmentView>::empty());
        let end_a = selector_text(a.take(1)).len() as int;
        let end_b = selector_text(b.take(1)).len() as int;
        lemma_segment_unique(text, 0, a[0], end_a, b[0], end_b);
        let rest = text.subrange(end_a, text.len() as int);
        assert(selector_text(a.drop_first()) =~= rest);
        assert(selector_text(b.drop_first()) =~= rest);
        assert forall|i: int| 0 <= i < a.drop_first().len() implies segment_ok(
            #[trigger] a.drop_first()[i],
        ) by {
            assert(a.drop_first()[i] == a[i + 1]);
        }
        assert forall|i: int| 0 <= i < b.drop_first().len() implies segment_ok(
            #[trigger] b.drop_first()[i],
        ) by {
            assert(b.drop_first()[i] == b[i + 1]);
        }
        lemma_reading_unique(rest, a.drop_first(), b.drop_first());
        assert(a =~= seq![a[0]] + a.drop_first());
        assert(b =~= seq![b[0]] + b.drop_first());
    }
}

} // verus!
