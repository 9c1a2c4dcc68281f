//! Path selectors: which places of a value tree a redaction applies to.
//!
//! A selector is written as one or more segments, one after the other:
//!
//! * `.name` selects the entry of a dictionary whose key is `name`
//!   (a letter or `_`, then letters, digits or `_`);
//! * `.*` selects every child;
//! * `[7]` selects one item of a list, given in decimal without leading zeros;
//! * `[]` selects every item of a list.

use vstd::prelude::*;
use vstd::std_specs::cmp::PartialEqSpecImpl;
use vstd::string::StrSliceExecFns;
use vstd::string::StringExecFns;

use crate::decimal::{
    decimal, decimal_value, is_decimal, is_digit, is_digit_char, lemma_decimal,
    lemma_decimal_of_value, lemma_value_push, push_decimal,
};
use crate::grammar::{
    boundary, is_ident, is_ident_char, is_ident_start, is_selector, lemma_reading_unique,
    lemma_segment_of_reading, lemma_segment_start, lemma_segment_unique, lemma_text_push,
    lemma_text_start, parses_as, reading, segment_at, segment_matches, segment_ok, segment_text,
    SegmentView, selector_matches, selector_text,
};
use crate::path::{ContentPath, PathItem, PathItemView};

verus! {

/// One step of a selector.
#[derive(Debug)]
pub enum Segment {
    /// `.name`: the entry of a dictionary with this key.
    Key(String),
    /// `.*`: every child.
    Wildcard,
    /// `[7]`: the item of a list at this position.
    Index(u64),
    /// `[]`: every item of a list.
    All,
}

impl View for Segment {
    type V = SegmentView;

    open spec fn view(&self) -> SegmentView {
        match self {
            Segment::Key(name) => SegmentView::Key(name@),
            Segment::Wildcard => SegmentView::Wildcard,
            Segment::Index(n) => SegmentView::Index(*n),
            Segment::All => SegmentView::All,
        }
    }
}

/// The views of a list of segments, one by one.
pub open spec fn segments_view(segs: Seq<Segment>) -> Seq<SegmentView> {
    Seq::new(segs.len(), |i: int| segs[i]@)
}

fn is_ident_start_char(c: char) -> (r: bool)
    ensures
        r == is_ident_start(c),
{
    (c >= 'a' && c <= 'z') || (c >= 'A' && c <= 'Z') || c == '_'
}

fn at_boundary(chars: &Vec<char>, end: usize) -> (r: bool)
    requires
        end <= chars.len(),
    ensures
        r == boundary(chars@, end as int),
{
    end == chars.len() || chars[end] == '.' || chars[end] == '['
}

/// Reads the segment that starts with `.` at `start`, if one is written there.
fn parse_dot_segment(text: &str, chars: &Vec<char>, start: usize) -> (r: Option<(Segment, usize)>)
    requires
        chars@ == text@,
        start < chars.len(),
        chars[start as int] == '.',
    ensures
        match r {
            Some((seg, end)) => segment_at(chars@, start as int, seg@, end as int),
            None => forall|seg: SegmentView, end: int|
                !segment_at(chars@, start as int, seg, end),
        },
{
    let len = chars.len();
    if start + 1 < len && chars[start + 1] == '*' {
        if at_boundary(chars, start + 2) {
            assert(chars@.subrange(start as int, start + 2) =~= seq!['.', '*']);
            Some((Segment::Wildcard, start + 2))
        } else {
            proof {
                assert forall|seg: SegmentView, end: int|
                    !segment_at(chars@, start as int, seg, end) by {
                    if segment_at(chars@, start as int, seg, end) {
                        lemma_segment_start(seg);
                        let t = segment_text(seg);
                        assert(t[0] == chars@.subrange(start as int, end)[0]);
                        assert(t[1] == chars@.subrange(start as int, end)[1]);
                        match seg {
                            SegmentView::Key(name) => {
                                assert(t[1] == name[0]);
                            },
                            _ => {},
                        }
                    }
                }
            }
            None
        }
    } else if start + 1 < len && is_ident_start_char(chars[start + 1]) {
        let mut j: usize = start + 2;
        while j < len && (is_ident_start_char(chars[j]) || is_digit_char(chars[j]))
            invariant
                start + 2 <= j <= len,
                len == chars.len(),
                forall|k: int| start < k < j ==> is_ident_char(#[trigger] chars[k]),
            decreases len - j,
        {
            j += 1;
        }
        if at_boundary(chars, j) {
            let name = text.substring_char(start + 1, j).to_owned();
            proof {
                let n = name@;
                assert(n == chars@.subrange(start + 1, j as int));
                assert(is_ident(n)) by {
                    assert(n[0] == chars[start + 1]);
                    assert forall|i: int| 0 <= i < n.len() implies is_ident_char(#[trigger] n[i]) by {
                        assert(n[i] == chars[start + 1 + i]);
                    }
                }
                assert(chars@.subrange(start as int, j as int) =~= seq!['.'] + n);
            }
            Some((Segment::Key(name), j))
        } else {
            proof {
                assert forall|seg: SegmentView, end: int|
                    !segment_at(chars@, start as int, seg, end) by {
                    if segment_at(chars@, start as int, seg, end) {
                        lemma_segment_start(seg);
                        let t = segment_text(seg);
                        assert forall|k: int| 0 <= k < t.len() implies t[k] == chars[start + k] by {
                            assert(chars@.subrange(start as int, end)[k] == chars[start + k]);
                        }
                        assert(t[0] == chars[start as int]);
                        assert(t[1] == chars[start + 1]);
                        match seg {
                            SegmentView::Key(name) => {
                                if end < j {
                                    assert(is_ident_char(chars[end]));
                                } else if end > j {
                                    assert(t[j - start] == name[j - start - 1]);
                                    assert(is_ident_char(name[j - start - 1]));
                                }
                            },
                            _ => {},
                        }
                    }
                }
            }
            None
        }
    } else {
        proof {
            assert forall|seg: SegmentView, end: int|
                !segment_at(chars@, start as int, seg, end) by {
                if segment_at(chars@, start as int, seg, end) {
                    lemma_segment_start(seg);
                    let t = segment_text(seg);
                    assert(t[0] == chars@.subrange(start as int, end)[0]);
                    assert(t[1] == chars@.subrange(start as int, end)[1]);
                    match seg {
                        SegmentView::Key(name) => {
                            assert(t[1] == name[0]);
                        },
                        _ => {},
                    }
                }
            }
        }
        None
    }
}

/// Reads the segment that starts with `[` at `start`, if one is written there.
fn parse_bracket_segment(chars: &Vec<char>, start: usize) -> (r: Option<(Segment, usize)>)
    requires
        start < chars.len(),
        chars[start as int] == '[',
    ensures
        match r {
            Some((seg, end)) => segment_at(chars@, start as int, seg@, end as int),
            None => forall|seg: SegmentView, end: int|
                !segment_at(chars@, start as int, seg, end),
        },
{
    let len = chars.len();
    if start + 1 < len && chars[start + 1] == ']' {
        if at_boundary(chars, start + 2) {
            assert(chars@.subrange(start as int, start + 2) =~= seq!['[', ']']);
            return Some((Segment::All, start + 2));
        }
        proof {
            assert forall|seg: SegmentView, end: int|
                !segment_at(chars@, start as int, seg, end) by {
                if segment_at(chars@, start as int, seg, end) {
                    lemma_segment_start(seg);
                    let t = segment_text(seg);
                    assert(t[0] == chars@.subrange(start as int, end)[0]);
                    assert(t[1] == chars@.subrange(start as int, end)[1]);
                    match seg {
                        SegmentView::Index(n) => {
                            lemma_decimal(n as nat);
                            assert(t[1] == decimal(n as nat)[0]);
                            assert(is_digit(decimal(n as nat)[0]));
                        },
                        _ => {},
                    }
                }
            }
        }
        return None;
    }
    let mut j: usize = start + 1;
    let mut value: u64 = 0;
    let mut overflow: bool = false;
    while j < len && is_digit_char(chars[j])
        invariant
            start + 1 <= j <= len,
            len == chars.len(),
            forall|k: int| start < k < j ==> is_digit(#[trigger] chars[k]),
            !overflow ==> value == decimal_value(chars@.subrange(start + 1, j as int)),
            overflow ==> decimal_value(chars@.subrange(start + 1, j as int)) > u64::MAX,
        decreases len - j,
    {
        let d: u64 = (chars[j] as u64) - 48;
        proof {
            let digits = chars@.subrange(start + 1, j as int);
            lemma_value_push(digits, chars[j as int]);
            assert(chars@.subrange(start + 1, j + 1) =~= digits.push(chars[j as int]));
        }
        if !overflow {
            if value > (u64::MAX - d) / 10 {
                overflow = true;
            } else {
                value = value * 10 + d;
            }
        }
        j += 1;
    }
    let ghost digits = chars@.subrange(start + 1, j as int);
    let closed = j > start + 1 && j < len && chars[j] == ']';
    let canonical = closed && (chars[start + 1] != '0' || j == start + 2);
    if canonical && !overflow && at_boundary(chars, j + 1) {
        proof {
            assert(is_decimal(digits)) by {
                assert forall|i: int| 0 <= i < digits.len() implies is_digit(#[trigger] digits[i]) by {
                    assert(digits[i] == chars[start + 1 + i]);
                }
                assert(digits[0] == chars[start + 1]);
            }
            lemma_decimal_of_value(digits);
            assert(chars@.subrange(start as int, j + 1) =~= seq!['['] + digits + seq![']']);
        }
        Some((Segment::Index(value), j + 1))
    } else {
        proof {
            assert forall|seg: SegmentView, end: int|
                !segment_at(chars@, start as int, seg, end) by {
                if segment_at(chars@, start as int, seg, end) {
                    lemma_segment_start(seg);
                    let t = segment_text(seg);
                    assert forall|k: int| 0 <= k < t.len() implies t[k] == chars[start + k] by {
                        assert(chars@.subrange(start as int, end)[k] == chars[start + k]);
                    }
                    assert(t[0] == chars[start as int]);
                    assert(t[1] == chars[start + 1]);
                    match seg {
                        SegmentView::Index(n) => {
                            lemma_decimal(n as nat);
                            let dn = decimal(n as nat);
                            assert forall|k: int| 0 <= k < dn.len() implies dn[k] == chars[start
                                + 1 + k] by {
                                assert(t[k + 1] == dn[k]);
                            }
                            assert(t[end - start - 1] == ']');
                            if end - 1 < j {
                                assert(is_digit(chars[end - 1]));
                            } else if end - 1 > j {
                                assert(is_digit(dn[j - start - 1]));
                            }
                            assert(digits =~= dn);
                        },
                        _ => {},
                    }
                }
            }
        }
        None
    }
}

/// Writes the text of a segment at the end of `out`.
fn push_segment(out: &mut String, seg: &Segment)
    ensures
        final(out)@ == old(out)@ + segment_text(seg@),
{
    proof {
        reveal_strlit(".");
        reveal_strlit(".*");
        reveal_strlit("[");
        reveal_strlit("]");
        reveal_strlit("[]");
    }
    match seg {
        Segment::Key(name) => {
            out.append(".");
            out.append(name.as_str());
            assert(out@ =~= old(out)@ + segment_text(seg@));
        },
        Segment::Wildcard => {
            out.append(".*");
            assert(out@ =~= old(out)@ + segment_text(seg@));
        },
        Segment::Index(n) => {
            out.append("[");
            push_decimal(out, *n);
            out.append("]");
            assert(out@ =~= old(out)@ + segment_text(seg@));
        },
        Segment::All => {
            out.append("[]");
            assert(out@ =~= old(out)@ + segment_text(seg@));
        },
    }
}

fn chars_of(text: &str) -> (chars: Vec<char>)
    ensures
        chars@ == text@,
{
    let mut chars: Vec<char> = Vec::new();
    for c in it: text.chars()
        invariant
            chars@ == text@.take(it.index() as int),
            it.seq() == text@,
    {
        chars.push(c);
    }
    chars
}

/// A text that is not a selector.
#[derive(Debug)]
pub struct SelectorError {
    /// The text that was rejected.
    pub pattern: String,
}

impl SelectorError {
    /// What went wrong, for a reader.
    pub fn message(&self) -> (r: String)
        ensures
            r@ == "not a selector: "@ + self.pattern@,
    {
        "not a selector: ".to_owned().concat(self.pattern.as_str())
    }
}

/// A parsed selector: one or more segments.
#[derive(Debug)]
pub struct Selector {
    segments: Vec<Segment>,
}

impl View for Selector {
    type V = Seq<SegmentView>;

    closed spec fn view(&self) -> Seq<SegmentView> {
        segments_view(self.segments@)
    }
}

impl Selector {
    #[verifier::type_invariant]
    spec fn well_formed(self) -> bool {
        &&& self.segments.len() > 0
        &&& forall|i: int| 0 <= i < self.segments.len() ==> segment_ok(#[trigger] self.segments[i]@)
    }

    /// Parses a selector. The text is accepted exactly when it reads as one or
    /// more segments, and the selector then holds that reading; a text that
    /// does not is handed back in the error.
    pub fn parse(pattern: &str) -> (r: Result<Selector, SelectorError>)
        ensures
            r is Ok <==> is_selector(pattern@),
            r matches Ok(selector) ==> selector@ == reading(pattern@),
            r matches Err(e) ==> e.pattern@ == pattern@,
    {
        let chars = chars_of(pattern);
        let len = chars.len();
        let mut segments: Vec<Segment> = Vec::new();
        let mut i: usize = 0;
        assert(chars@.subrange(0, 0) =~= Seq::<char>::empty());
        assert forall|full: Seq<SegmentView>| #[trigger] parses_as(chars@, full) implies 0
            <= full.len() && full.take(0) == segments_view(segments@) by {
            assert(full.take(0) =~= segments_view(segments@));
        }
        while i < len
            invariant
                chars@ == pattern@,
                len == chars.len(),
                i <= len,
                i > 0 ==> segments.len() > 0,
                parses_as(chars@.subrange(0, i as int), segments_view(segments@)),
                forall|full: Seq<SegmentView>| #[trigger]
                    parses_as(chars@, full) ==> segments.len() <= full.len() && full.take(
                        segments.len() as int,
                    ) == segments_view(segments@),
            decreases len - i,
        {
            let c = chars[i];
            let next = if c == '.' {
                parse_dot_segment(pattern, &chars, i)
            } else if c == '[' {
                parse_bracket_segment(&chars, i)
            } else {
                proof {
                    assert forall|seg: SegmentView, end: int|
                        !segment_at(chars@, i as int, seg, end) by {
                        if segment_at(chars@, i as int, seg, end) {
                            lemma_segment_start(seg);
                            assert(segment_text(seg)[0] == chars@.subrange(i as int, end)[0]);
                        }
                    }
                }
                None
            };
            let ghost parsed = segments_view(segments@);
            let ghost n = segments.len() as int;
            proof {
                assert forall|full: Seq<SegmentView>| #[trigger]
                    parses_as(chars@, full) implies n < full.len() && segment_at(
                    chars@,
                    i as int,
                    full[n],
                    selector_text(full.take(n + 1)).len() as int,
                ) by {
                    assert(full.take(n) == parsed);
                    if full.len() == n {
                        assert(full.take(n) =~= full);
                        assert(chars@.subrange(0, i as int).len() == i);
                    }
                    lemma_segment_of_reading(chars@, full, n);
                }
            }
            match next {
                None => {
                    proof {
                        assert forall|full: Seq<SegmentView>|
                            !(full.len() > 0 && #[trigger] parses_as(chars@, full)) by {}
                    }
                    return Err(SelectorError { pattern: pattern.to_owned() });
                },
                Some((seg, end)) => {
                    proof {
                        lemma_text_push(parsed, seg@);
                        assert(segments_view(segments@.push(seg)) =~= parsed.push(seg@));
                        assert(chars@.subrange(0, end as int) =~= chars@.subrange(0, i as int)
                            + chars@.subrange(i as int, end as int));
                        assert forall|full: Seq<SegmentView>| #[trigger]
                            parses_as(chars@, full) implies n + 1 <= full.len() && full.take(
                            n + 1,
                        ) == parsed.push(seg@) by {
                            lemma_segment_unique(
                                chars@,
                                i as int,
                                seg@,
                                end as int,
                                full[n],
                                selector_text(full.take(n + 1)).len() as int,
                            );
                            assert(full.take(n + 1) =~= full.take(n).push(full[n]));
                        }
                    }
                    segments.push(seg);
                    i = end;
                },
            }
        }
        assert(chars@.subrange(0, len as int) =~= chars@);
        if segments.len() == 0 {
            proof {
                assert forall|full: Seq<SegmentView>|
                    !(full.len() > 0 && #[trigger] parses_as(chars@, full)) by {
                    if full.len() > 0 && parses_as(chars@, full) {
                        lemma_text_start(full);
                    }
                }
            }
            return Err(SelectorError { pattern: pattern.to_owned() });
        }
        proof {
            assert forall|k: int| 0 <= k < segments.len() implies segment_ok(
                #[trigger] segments[k]@,
            ) by {
                assert(segments_view(segments@)[k] == segments[k]@);
            }
            assert(parses_as(pattern@, segments_view(segments@)));
            lemma_reading_unique(pattern@, segments_view(segments@), reading(pattern@));
        }
        Ok(Selector { segments })
    }

    /// The selector as it is written. Parsing the text gives the selector back.
    pub fn to_string(&self) -> (r: String)
        ensures
            r@ == selector_text(self@),
            is_selector(r@),
            reading(r@) == self@,
    {
        proof {
            use_type_invariant(self);
            assert forall|k: int| 0 <= k < self@.len() implies segment_ok(#[trigger] self@[k]) by {
                assert(self@[k] == self.segments[k]@);
            }
            assert(parses_as(selector_text(self@), self@));
            lemma_reading_unique(selector_text(self@), self@, reading(selector_text(self@)));
        }
        let mut out = String::new();
        let mut i: usize = 0;
        assert(self@.take(0) =~= Seq::<SegmentView>::empty());
        while i < self.segments.len()
            invariant
                i <= self.segments.len(),
                out@ == selector_text(self@.take(i as int)),
            decreases self.segments.len() - i,
        {
            proof {
                lemma_text_push(self@.take(i as int), self@[i as int]);
                assert(self@.take(i as int).push(self@[i as int]) =~= self@.take(i + 1));
            }
            push_segment(&mut out, &self.segments[i]);
            i += 1;
        }
        assert(self@.take(self.segments.len() as int) =~= self@);
        out
    }

    /// Whether the selector picks the value at `path`: it has one segment for
    /// each step of the path, and each segment admits its step.
    pub fn is_match(&self, path: &ContentPath) -> (r: bool)
        ensures
            r == selector_matches(self@, path@),
    {
        let items = path.items();
        if self.segments.len() != items.len() {
            return false;
        }
        let mut i: usize = 0;
        while i < self.segments.len()
            invariant
                i <= self.segments.len(),
                self.segments.len() == items.len(),
                path@ == Seq::new(items.len() as nat, |k: int| items[k]@),
                forall|k: int| 0 <= k < i ==> segment_matches(#[trigger] self@[k], path@[k]),
            decreases self.segments.len() - i,
        {
            let admitted = match &self.segments[i] {
                Segment::Key(name) => match &items[i] {
                    PathItem::Key(key) => *name == *key,
                    PathItem::Index(_) => false,
                },
                Segment::Wildcard => true,
                Segment::Index(n) => match &items[i] {
                    PathItem::Key(_) => false,
                    PathItem::Index(at) => *n == *at,
                },
                Segment::All => match &items[i] {
                    PathItem::Key(_) => false,
                    PathItem::Index(_) => true,
                },
            };
            assert(self@[i as int] == self.segments[i as int]@);
            assert(path@[i as int] == items[i as int]@);
            assert(admitted == segment_matches(self@[i as int], path@[i as int]));
            if !admitted {
                return false;
            }
            i += 1;
        }
        true
    }

    /// The segments of the selector, in the order in which they are written.
    pub fn segments(&self) -> (r: &Vec<Segment>)
        ensures
            segments_view(r@) == self@,
            is_selector(selector_text(self@)),
    {
        proof {
            use_type_invariant(self);
            assert forall|k: int| 0 <= k < self@.len() implies segment_ok(#[trigger] self@[k]) by {
                assert(self@[k] == self.segments[k]@);
            }
            assert(parses_as(selector_text(self@), self@));
        }
        &self.segments
    }
}

impl Clone for Segment {
    fn clone(&self) -> (r: Segment)
        ensures
            r@ == self@,
    {
        match self {
            Segment::Key(name) => Segment::Key(name.clone()),
            Segment::Wildcard => Segment::Wildcard,
            Segment::Index(n) => Segment::Index(*n),
            Segment::All => Segment::All,
        }
    }
}

fn segment_equal(a: &Segment, b: &Segment) -> (r: bool)
    ensures
        r == (a@ == b@),
{
    match a {
        Segment::Key(x) => match b {
            Segment::Key(y) => *x == *y,
            _ => false,
        },
        Segment::Wildcard => match b {
            Segment::Wildcard => true,
            _ => false,
        },
        Segment::Index(x) => match b {
            Segment::Index(y) => *x == *y,
            _ => false,
        },
        Segment::All => match b {
            Segment::All => true,
            _ => false,
        },
    }
}

impl PartialEq for Segment {
    /// Two segments are equal when they have the same value.
    fn eq(&self, other: &Segment) -> (r: bool) {
        segment_equal(self, other)
    }
}

impl PartialEqSpecImpl for Segment {
    open spec fn obeys_eq_spec() -> bool {
        true
    }

    open spec fn eq_spec(&self, other: &Segment) -> bool {
        self@ == other@
    }
}

impl Clone for Selector {
    fn clone(&self) -> (r: Selector)
        ensures
            r@ == self@,
    {
        proof {
            use_type_invariant(self);
        }
        let mut segments: Vec<Segment> = Vec::new();
        let mut i: usize = 0;
        while i < self.segments.len()
            invariant
                i <= self.segments.len(),
                segments.len() == i,
                forall|k: int| 0 <= k < i ==> segments[k]@ == self.segments[k]@,
            decreases self.segments.len() - i,
        {
            segments.push(self.segments[i].clone());
            i += 1;
        }
        assert(segments_view(segments@) =~= segments_view(self.segments@));
        Selector { segments }
    }
}

impl PartialEq for Selector {
    /// Two selectors are equal when they have the same segments.
    fn eq(&self, other: &Selector) -> (r: bool) {
        if self.segments.len() != other.segments.len() {
            assert(self@.len() != other@.len());
            return false;
        }
        let mut i: usize = 0;
        while i < self.segments.len()
            invariant
                i <= self.segments.len(),
                self.segments.len() == other.segments.len(),
                forall|k: int| 0 <= k < i ==> self.segments[k]@ == other.segments[k]@,
            decreases self.segments.len() - i,
        {
            if !segment_equal(&self.segments[i], &other.segments[i]) {
                assert(self@[i as int] != other@[i as int]);
                return false;
            }
            i += 1;
        }
        assert(self@ =~= other@);
        true
    }
}

impl PartialEqSpecImpl for Selector {
    open spec fn obeys_eq_spec() -> bool {
        true
    }

    open spec fn eq_spec(&self, other: &Selector) -> bool {
        self@ == other@
    }
}

} // verus!
