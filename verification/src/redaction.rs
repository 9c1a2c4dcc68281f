//! Redactions: what is done to the values that a selector picks.

use std::sync::Arc;
use vstd::prelude::*;

use crate::content::{Content, ContentView};
use crate::path::ContentPath;
use crate::grammar::{is_selector, reading, SegmentView};
use crate::selector::{Selector, SelectorError};
use crate::shared::{same_allocation, share};

verus! {

/// A callback that computes the replacement of a selected value.
///
/// It is kept for later and may be called once for each value that the
/// selector picks, so it owns what it needs and can be shared between threads.
pub trait Replacer: Send + Sync {
    /// The values and paths that the callback may be called with.
    spec fn accepts(&self, value: Content, path: ContentPath) -> bool;

    /// The replacements that the callback may give for a value at a path.
    spec fn yields(&self, value: Content, path: ContentPath, out: Content) -> bool;

    fn replace(&self, value: Content, path: ContentPath) -> (out: Content)
        requires
            self.accepts(value, path),
        ensures
            self.yields(value, path, out),
    ;
}

impl<F: Fn(Content, ContentPath) -> Content + Send + Sync> Replacer for F {
    open spec fn accepts(&self, value: Content, path: ContentPath) -> bool {
        call_requires(*self, (value, path))
    }

    open spec fn yields(&self, value: Content, path: ContentPath, out: Content) -> bool {
        call_ensures(*self, (value, path), out)
    }

    fn replace(&self, value: Content, path: ContentPath) -> (out: Content) {
        self(value, path)
    }
}

/// A callback that inspects a selected value and leaves it as it is.
/// It reports a value that it does not accept by its own means.
pub trait Inspector: Send + Sync {
    /// The values and paths that the callback may be called with.
    spec fn accepts(&self, value: &Content, path: ContentPath) -> bool;

    fn inspect(&self, value: &Content, path: ContentPath)
        requires
            self.accepts(value, path),
    ;
}

impl<F: Fn(&Content, ContentPath) + Send + Sync> Inspector for F {
    open spec fn accepts(&self, value: &Content, path: ContentPath) -> bool {
        call_requires(*self, (value, path))
    }

    fn inspect(&self, value: &Content, path: ContentPath) {
        self(value, path)
    }
}

/// What a rule does to a value that its selector picks.
pub enum Redaction {
    /// The value is replaced by this one.
    Static(Content),
    /// The value is replaced by what the callback gives for it.
    Replacement(Arc<Box<dyn Replacer>>),
    /// The value is shown to the callback and stays.
    Assertion(Arc<Box<dyn Inspector>>),
}

/// The mathematical value of a [`Redaction`]: a fixed replacement by its
/// value, a callback as itself.
pub enum RedactionView {
    Static(ContentView),
    Replacement(Box<dyn Replacer>),
    Assertion(Box<dyn Inspector>),
}

impl View for Redaction {
    type V = RedactionView;

    open spec fn view(&self) -> RedactionView {
        match self {
            Redaction::Static(value) => RedactionView::Static(value@),
            Redaction::Replacement(f) => RedactionView::Replacement(**f),
            Redaction::Assertion(f) => RedactionView::Assertion(**f),
        }
    }
}

/// `redaction` replaces a value by what `func` gives for it: its callback
/// can be called exactly where `func` can, and yields exactly what `func` yields.
pub open spec fn replaces_with<F: Fn(Content, ContentPath) -> Content>(
    redaction: RedactionView,
    func: F,
) -> bool {
    &&& redaction matches RedactionView::Replacement(callback)
    &&& forall|value: Content, path: ContentPath| #[trigger]
        callback.accepts(value, path) == call_requires(func, (value, path))
    &&& forall|value: Content, path: ContentPath, out: Content| #[trigger]
        callback.yields(value, path, out) == call_ensures(func, (value, path), out)
}

/// `redaction` shows a value to `func` and leaves it as it is: its callback
/// can be called exactly where `func` can.
pub open spec fn asserts_with<F: Fn(&Content, ContentPath)>(
    redaction: RedactionView,
    func: F,
) -> bool {
    &&& redaction matches RedactionView::Assertion(callback)
    &&& forall|value: &Content, path: ContentPath| #[trigger]
        callback.accepts(value, path) == call_requires(func, (value, path))
}

impl Redaction {
    /// The redaction that replaces a value by what `func` gives for it.
    pub fn replacement<F>(func: F) -> (r: Redaction) where
        F: Fn(Content, ContentPath) -> Content + Send + Sync + 'static,

        ensures
            replaces_with(r@, func),
    {
        Redaction::Replacement(Arc::new(Box::new(func)))
    }

    /// The redaction that shows a value to `func` and leaves it as it is.
    pub fn assertion<F>(func: F) -> (r: Redaction) where
        F: Fn(&Content, ContentPath) + Send + Sync + 'static,

        ensures
            asserts_with(r@, func),
    {
        Redaction::Assertion(Arc::new(Box::new(func)))
    }

    /// Whether the callback of the redaction, if it has one, may be called
    /// with `value` and `path`.
    pub open spec fn accepts(self, value: Content, path: ContentPath) -> bool {
        match self {
            Redaction::Static(_) => true,
            Redaction::Replacement(callback) => callback.accepts(value, path),
            Redaction::Assertion(callback) => callback.accepts(&value, path),
        }
    }

    /// Does to one selected value what the redaction says: a fixed
    /// replacement takes the place of the value; a computed replacement is
    /// what the callback gives for the value and its path; an assertion shows
    /// the value to its callback and leaves it as it is.
    pub fn apply(&self, value: Content, path: ContentPath) -> (r: Content)
        requires
            self.accepts(value, path),
        ensures
            self matches Redaction::Static(replacement) ==> r@ == replacement@,
            self matches Redaction::Replacement(callback) ==> callback.yields(value, path, r),
            self is Assertion ==> r == value,
    {
        match self {
            Redaction::Static(replacement) => replacement.clone(),
            Redaction::Replacement(callback) => callback.replace(value, path),
            Redaction::Assertion(callback) => {
                callback.inspect(&value, path);
                value
            },
        }
    }

    /// Whether two redactions are known to do the same: fixed replacements of
    /// equal value, or one callback shared by both. Two callbacks that were
    /// registered apart are not compared, and count as different.
    pub fn same_as(&self, other: &Redaction) -> (r: bool)
        ensures
            r ==> self@ == other@,
            self@ is Static ==> r == (self@ == other@),
    {
        match self {
            Redaction::Static(a) => match other {
                Redaction::Static(b) => *a == *b,
                _ => false,
            },
            Redaction::Replacement(a) => match other {
                Redaction::Replacement(b) => same_allocation(a, b),
                _ => false,
            },
            Redaction::Assertion(a) => match other {
                Redaction::Assertion(b) => same_allocation(a, b),
                _ => false,
            },
        }
    }
}

impl Clone for Redaction {
    /// A fixed replacement is copied; a callback is shared, not copied.
    fn clone(&self) -> (r: Redaction)
        ensures
            r@ == self@,
    {
        match self {
            Redaction::Static(value) => Redaction::Static(value.clone()),
            Redaction::Replacement(f) => Redaction::Replacement(share(f)),
            Redaction::Assertion(f) => Redaction::Assertion(share(f)),
        }
    }
}

/// The mathematical value of a rule: the segments of its selector, and what it does.
pub type RuleView = (Seq<SegmentView>, RedactionView);

/// The values of a list of rules, rule by rule.
pub open spec fn rules_view(rules: Seq<(Selector, Redaction)>) -> Seq<RuleView> {
    Seq::new(rules.len(), |i: int| (rules[i].0@, rules[i].1@))
}

/// The rule that replaces what the selector written as `text` picks by `value`.
pub open spec fn static_rule(text: Seq<char>, value: ContentView) -> RuleView {
    (reading(text), RedactionView::Static(value))
}

/// Stored redactions: rules in the order in which they are to be applied.
pub struct Redactions(Vec<(Selector, Redaction)>);

impl View for Redactions {
    type V = Seq<RuleView>;

    closed spec fn view(&self) -> Seq<RuleView> {
        rules_view(self.0@)
    }
}

impl Default for Redactions {
    /// No rules.
    fn default() -> (r: Redactions)
        ensures
            r@ == Seq::<RuleView>::empty(),
    {
        let r = Redactions(Vec::new());
        assert(r@ =~= Seq::<RuleView>::empty());
        r
    }
}

impl Clone for Redactions {
    fn clone(&self) -> (r: Redactions)
        ensures
            r@ == self@,
    {
        let mut rules: Vec<(Selector, Redaction)> = Vec::new();
        let mut i: usize = 0;
        while i < self.0.len()
            invariant
                i <= self.0.len(),
                rules.len() == i,
                forall|k: int|
                    0 <= k < i ==> rules[k].0@ == self.0[k].0@ && rules[k].1@ == self.0[k].1@,
            decreases self.0.len() - i,
        {
            let selector = self.0[i].0.clone();
            let redaction = self.0[i].1.clone();
            rules.push((selector, redaction));
            i += 1;
        }
        assert(rules_view(rules@) =~= rules_view(self.0@));
        Redactions(rules)
    }
}

/// The rules that replace what each selector text picks by the value beside it.
pub open spec fn static_rules(pairs: Seq<(&str, Content)>) -> Seq<RuleView> {
    Seq::new(pairs.len(), |i: int| static_rule(pairs[i].0@, pairs[i].1@))
}

/// No rule of the list holds a callback.
pub open spec fn all_static(rules: Seq<RuleView>) -> bool {
    forall|i: int| 0 <= i < rules.len() ==> (#[trigger] rules[i]).1 is Static
}

/// Every text of the pairs is a selector.
pub open spec fn all_selectors(pairs: Seq<(&str, Content)>) -> bool {
    forall|i: int| 0 <= i < pairs.len() ==> is_selector(#[trigger] pairs[i].0@)
}

/// `text` is the first text of the pairs that is not a selector.
pub open spec fn is_first_rejected(pairs: Seq<(&str, Content)>, text: Seq<char>) -> bool {
    exists|k: int|
        0 <= k < pairs.len() && !is_selector(#[trigger] pairs[k].0@) && pairs[k].0@ == text
            && all_selectors(pairs.take(k))
}

impl Redactions {
    /// Whether two lists are known to hold the same rules in the same order
    /// (see [`Redaction::same_as`]).
    pub fn same_as(&self, other: &Redactions) -> (r: bool)
        ensures
            r ==> self@ == other@,
            all_static(self@) ==> r == (self@ == other@),
    {
        if self.0.len() != other.0.len() {
            assert(self@.len() != other@.len());
            return false;
        }
        let mut i: usize = 0;
        while i < self.0.len()
            invariant
                i <= self.0.len(),
                self.0.len() == other.0.len(),
                forall|k: int| 0 <= k < i ==> self@[k] == other@[k],
            decreases self.0.len() - i,
        {
            let same = self.0[i].0 == other.0[i].0 && self.0[i].1.same_as(&other.0[i].1);
            if !same {
                proof {
                    if all_static(self@) {
                        assert(self@[i as int].1 is Static);
                        assert(self@[i as int] != other@[i as int]);
                    }
                }
                return false;
            }
            i += 1;
        }
        assert(self@ =~= other@);
        true
    }

    /// Makes one rule of each pair of a selector text and a fixed replacement,
    /// in the order of the pairs. Where a text is not a selector no list is
    /// made: the first such text comes back in the error.
    pub fn from_pairs(pairs: Vec<(&str, Content)>) -> (r: Result<Redactions, SelectorError>)
        ensures
            r is Ok <==> all_selectors(pairs@),
            r matches Ok(redactions) ==> redactions@ == static_rules(pairs@),
            r matches Err(e) ==> is_first_rejected(pairs@, e.pattern@),
    {
        let mut rules: Vec<(Selector, Redaction)> = Vec::new();
        for pair in it: pairs
            invariant
                it.seq() == pairs@,
                rules.len() == it.index(),
                forall|i: int| 0 <= i < it.index() ==> is_selector(#[trigger] pairs[i].0@),
                forall|i: int|
                    0 <= i < it.index() ==> (#[trigger] rules[i]).0@ == reading(pairs[i].0@)
                        && rules[i].1@ == RedactionView::Static(pairs[i].1@),
        {
            let (text, value) = pair;
            match Selector::parse(text) {
                Ok(selector) => {
                    rules.push((selector, Redaction::Static(value)));
                },
                Err(e) => {
                    return Err(e);
                },
            }
        }
        let redactions = Redactions(rules);
        assert(redactions@ =~= static_rules(pairs@));
        Ok(redactions)
    }

    /// The number of rules.
    pub fn len(&self) -> (n: usize)
        ensures
            n == self@.len(),
    {
        self.0.len()
    }

    /// The rule at position `i`, where there is one.
    pub fn get(&self, i: usize) -> (r: Option<(&Selector, &Redaction)>)
        ensures
            r is Some <==> i < self@.len(),
            r matches Some(rule) ==> (rule.0@, rule.1@) == self@[i as int],
    {
        if i < self.0.len() {
            Some((&self.0[i].0, &self.0[i].1))
        } else {
            None
        }
    }

    /// Adds a rule behind the rules that are there.
    pub fn push(&mut self, selector: Selector, redaction: Redaction)
        ensures
            final(self)@ == old(self)@.push((selector@, redaction@)),
    {
        self.0.push((selector, redaction));
        assert(self@ =~= old(self)@.push((selector@, redaction@)));
    }

    /// Removes every rule.
    pub fn clear(&mut self)
        ensures
            final(self)@ == Seq::<RuleView>::empty(),
    {
        self.0.clear();
        assert(self@ =~= Seq::<RuleView>::empty());
    }
}

} // verus!
