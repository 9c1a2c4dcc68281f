//! Settings: how values are normalised before they are compared with a snapshot.
//!
//! A [`Settings`] is a handle on a shared, immutable [`ActualSettings`].
//! Cloning a handle shares the value; the first change made through a handle
//! whose value is shared gives that handle a copy of its own, so no other
//! handle ever sees the change.
//!
//! A redaction is registered with the text of its selector. The text is
//! parsed when the rule is registered, so that a mistake in it shows where the
//! test is set up. A text that is not a selector is an error that the caller
//! gets back: the registration adds nothing and nothing panics.

use std::sync::Arc;
use vstd::prelude::*;
use vstd::std_specs::cmp::PartialEqSpecImpl;

use crate::content::Content;
use crate::path::ContentPath;
use crate::redaction::{
    all_static, asserts_with, Redaction, Redactions, replaces_with, RuleView, static_rule,
};
use crate::grammar::{is_selector, reading};
use crate::selector::{Selector, SelectorError};
use crate::shared::{make_unique, share};

verus! {

/// The tunables themselves.
pub struct ActualSettings {
    /// Whether maps are sorted before they are compared or written.
    pub sort_maps: bool,
    /// The directory of the snapshot files.
    pub snapshot_path: String,
    /// The redactions, in the order in which they are applied.
    pub redactions: Redactions,
}

/// The mathematical value of settings.
pub struct SettingsView {
    pub sort_maps: bool,
    pub snapshot_path: Seq<char>,
    pub redactions: Seq<RuleView>,
}

impl SettingsView {
    /// The settings that every thread starts with: maps are not sorted, the
    /// snapshots lie in `snapshots`, and nothing is redacted.
    pub open spec fn initial() -> SettingsView {
        SettingsView { sort_maps: false, snapshot_path: "snapshots"@, redactions: Seq::empty() }
    }

    pub open spec fn with_sort_maps(self, value: bool) -> SettingsView {
        SettingsView { sort_maps: value, ..self }
    }

    pub open spec fn with_snapshot_path(self, path: Seq<char>) -> SettingsView {
        SettingsView { snapshot_path: path, ..self }
    }

    pub open spec fn with_redactions(self, redactions: Seq<RuleView>) -> SettingsView {
        SettingsView { redactions, ..self }
    }

    /// These settings with one more rule, behind the rules that are there.
    pub open spec fn with_rule(self, rule: RuleView) -> SettingsView {
        self.with_redactions(self.redactions.push(rule))
    }

    /// These settings are `before` with one more rule behind its rules.
    pub open spec fn extends(self, before: SettingsView) -> bool {
        self.redactions.len() > 0 && self == before.with_rule(self.redactions.last())
    }
}

impl View for ActualSettings {
    type V = SettingsView;

    open spec fn view(&self) -> SettingsView {
        SettingsView {
            sort_maps: self.sort_maps,
            snapshot_path: self.snapshot_path@,
            redactions: self.redactions@,
        }
    }
}

impl Clone for ActualSettings {
    fn clone(&self) -> (r: ActualSettings)
        ensures
            r@ == self@,
    {
        ActualSettings {
            sort_maps: self.sort_maps,
            snapshot_path: self.snapshot_path.clone(),
            redactions: self.redactions.clone(),
        }
    }
}

impl Default for ActualSettings {
    fn default() -> (r: ActualSettings)
        ensures
            r@ == SettingsView::initial(),
    {
        ActualSettings {
            sort_maps: false,
            snapshot_path: "snapshots".to_owned(),
            redactions: Redactions::default(),
        }
    }
}

/// `step` may turn `before` into `after` when it is called for `rule`.
pub open spec fn applied_at<T, F: Fn(T, &Selector, &Redaction) -> T>(
    step: F,
    rule: RuleView,
    before: T,
    after: T,
) -> bool {
    exists|selector: &Selector, redaction: &Redaction|
        (selector@, redaction@) == rule && #[trigger] call_ensures(
            step,
            (before, selector, redaction),
            after,
        )
}

/// `states` are the values that `step` goes through when it is called for
/// each of `rules` in turn: the first is what it starts from, and each rule
/// turns the state before it into the state after it.
pub open spec fn applied_in_order<T, F: Fn(T, &Selector, &Redaction) -> T>(
    step: F,
    rules: Seq<RuleView>,
    states: Seq<T>,
) -> bool {
    &&& states.len() == rules.len() + 1
    &&& forall|i: int|
        0 <= i < rules.len() ==> #[trigger] applied_at(step, rules[i], states[i], states[i + 1])
}

/// A handle on settings.
pub struct Settings {
    inner: Arc<ActualSettings>,
}

impl View for Settings {
    type V = SettingsView;

    closed spec fn view(&self) -> SettingsView {
        self.inner@
    }
}

impl Default for Settings {
    fn default() -> (r: Settings)
        ensures
            r@ == SettingsView::initial(),
    {
        Settings { inner: Arc::new(ActualSettings::default()) }
    }
}

impl Clone for Settings {
    /// Another handle on the same settings. Nothing is copied.
    fn clone(&self) -> (r: Settings)
        ensures
            r@ == self@,
    {
        Settings { inner: share(&self.inner) }
    }
}

impl PartialEq for Settings {
    /// Whether two handles show the same settings, whether or not they share
    /// them: the same sorting of maps, the same directory, and the same rules
    /// in the same order. Rules with callbacks are the same where both handles
    /// hold the very same callback, as a handle and its clones do; callbacks
    /// that were registered apart are not compared, and count as different.
    fn eq(&self, other: &Settings) -> (r: bool)
        ensures
            r ==> self@ == other@,
            all_static(self@.redactions) ==> r == (self@ == other@),
    {
        self.inner.sort_maps == other.inner.sort_maps && self.inner.snapshot_path
            == other.inner.snapshot_path && self.inner.redactions.same_as(&other.inner.redactions)
    }
}

impl PartialEqSpecImpl for Settings {
    /// What `==` returns is stated by `eq` itself: it is decided by more than
    /// the values of the two handles.
    open spec fn obeys_eq_spec() -> bool {
        false
    }

    open spec fn eq_spec(&self, other: &Settings) -> bool {
        self@ == other@
    }
}

impl Settings {
    /// The initial settings.
    pub fn new() -> (r: Settings)
        ensures
            r@ == SettingsView::initial(),
    {
        Settings::default()
    }

    /// The settings behind this handle, for writing. Where other handles
    /// share them, this handle first gets a copy of its own. What is written
    /// through the reference is what this handle shows afterwards.
    pub fn _private_inner_mut(&mut self) -> (r: &mut ActualSettings)
        ensures
            r@ == old(self)@,
            final(self)@ == final(r)@,
    {
        make_unique(&mut self.inner)
    }

    /// Turns the sorting of maps on or off.
    pub fn set_sort_maps(&mut self, value: bool)
        ensures
            final(self)@ == old(self)@.with_sort_maps(value),
    {
        self._private_inner_mut().sort_maps = value;
    }

    /// Whether maps are sorted.
    pub fn sort_maps(&self) -> (r: bool)
        ensures
            r == self@.sort_maps,
    {
        self.inner.sort_maps
    }

    /// Registers a rule that replaces what `selector` picks by `replacement`.
    ///
    /// The selector is parsed at once. Where it is not a selector the settings
    /// stay as they are and the text comes back in the error; else the rule is
    /// added behind the rules that are there.
    pub fn add_redaction<I: Into<Content>>(&mut self, selector: &str, replacement: I) -> (r: Result<
        (),
        SelectorError,
    >)
        ensures
            r is Ok <==> is_selector(selector@),
            r is Ok ==> exists|value: Content| #[trigger]
                call_ensures(I::into, (replacement,), value) && final(self)@ == old(
                    self,
                )@.with_rule(static_rule(selector@, value@)),
            r matches Err(e) ==> e.pattern@ == selector@ && final(self)@ == old(self)@,
    {
        match Selector::parse(selector) {
            Ok(parsed) => {
                let value: Content = replacement.into();
                self._private_inner_mut().redactions.push(parsed, Redaction::Static(value));
                Ok(())
            },
            Err(e) => Err(e),
        }
    }

    /// Registers a rule that replaces what `selector` picks by what `func`
    /// gives for the value and its path.
    ///
    /// The selector is parsed at once. Where it is not a selector the settings
    /// stay as they are and the text comes back in the error; else the rule is
    /// added behind the rules that are there.
    pub fn add_dynamic_redaction<F>(&mut self, selector: &str, func: F) -> (r: Result<
        (),
        SelectorError,
    >) where F: Fn(Content, ContentPath) -> Content + Send + Sync + 'static
        ensures
            r is Ok <==> is_selector(selector@),
            r is Ok ==> final(self)@.extends(old(self)@),
            r is Ok ==> final(self)@.redactions.last().0 == reading(selector@),
            r is Ok ==> replaces_with(final(self)@.redactions.last().1, func),
            r matches Err(e) ==> e.pattern@ == selector@ && final(self)@ == old(self)@,
    {
        match Selector::parse(selector) {
            Ok(parsed) => {
                let redaction = Redaction::replacement(func);
                proof {
                    let rule = (parsed@, redaction@);
                    assert(old(self)@.redactions.push(rule).last() == rule);
                }
                self._private_inner_mut().redactions.push(parsed, redaction);
                Ok(())
            },
            Err(e) => Err(e),
        }
    }

    /// Registers a rule that shows what `selector` picks to `func`, with its
    /// path, and leaves it as it is.
    ///
    /// The selector is parsed at once. Where it is not a selector the settings
    /// stay as they are and the text comes back in the error; else the rule is
    /// added behind the rules that are there.
    pub fn add_assertion<F>(&mut self, selector: &str, func: F) -> (r: Result<
        (),
        SelectorError,
    >) where F: Fn(&Content, ContentPath) + Send + Sync + 'static
        ensures
            r is Ok <==> is_selector(selector@),
            r is Ok ==> final(self)@.extends(old(self)@),
            r is Ok ==> final(self)@.redactions.last().0 == reading(selector@),
            r is Ok ==> asserts_with(final(self)@.redactions.last().1, func),
            r matches Err(e) ==> e.pattern@ == selector@ && final(self)@ == old(self)@,
    {
        match Selector::parse(selector) {
            Ok(parsed) => {
                let redaction = Redaction::assertion(func);
                proof {
                    let rule = (parsed@, redaction@);
                    assert(old(self)@.redactions.push(rule).last() == rule);
                }
                self._private_inner_mut().redactions.push(parsed, redaction);
                Ok(())
            },
            Err(e) => Err(e),
        }
    }

    /// Replaces all the redactions by the given ones.
    pub fn set_redactions(&mut self, redactions: Redactions)
        ensures
            final(self)@ == old(self)@.with_redactions(redactions@),
    {
        self._private_inner_mut().redactions = redactions;
    }

    /// Removes all the redactions.
    pub fn clear_redactions(&mut self)
        ensures
            final(self)@ == old(self)@.with_redactions(Seq::empty()),
    {
        self._private_inner_mut().redactions.clear();
    }

    /// The redactions, in the order in which they were registered.
    pub fn iter_redactions(&self) -> (r: Vec<(&Selector, &Redaction)>)
        ensures
            r.len() == self@.redactions.len(),
            forall|i: int|
                0 <= i < r.len() ==> ((#[trigger] r[i]).0@, r[i].1@) == self@.redactions[i],
    {
        let mut out: Vec<(&Selector, &Redaction)> = Vec::new();
        let n = self.inner.redactions.len();
        let mut i: usize = 0;
        while i < n
            invariant
                n == self@.redactions.len(),
                i <= n,
                out.len() == i,
                forall|k: int|
                    0 <= k < i ==> ((#[trigger] out[k]).0@, out[k].1@) == self@.redactions[k],
            decreases n - i,
        {
            match self.inner.redactions.get(i) {
                Some(rule) => {
                    out.push(rule);
                },
                None => {},
            }
            i += 1;
        }
        out
    }

    /// Applies the redactions to `value`, one after the other in the order in
    /// which they were registered: `step` is called once for each rule, and
    /// each call is given what the call before it returned. So a rule works
    /// on what the rules before it have left, never on the value as it was.
    pub fn apply_redactions<T, F: Fn(T, &Selector, &Redaction) -> T>(&self, value: T, step: F) -> (r:
        T)
        requires
            forall|state: T, selector: &Selector, redaction: &Redaction|
                self@.redactions.contains((selector@, redaction@)) ==> call_requires(
                    step,
                    (state, selector, redaction),
                ),
        ensures
            exists|states: Seq<T>| #[trigger]
                applied_in_order(step, self@.redactions, states) && states[0] == value
                    && states.last() == r,
    {
        let n = self.inner.redactions.len();
        let mut state = value;
        let ghost mut states: Seq<T> = seq![value];
        let mut i: usize = 0;
        while i < n
            invariant
                n == self@.redactions.len(),
                i <= n,
                states.len() == i + 1,
                states[0] == value,
                states.last() == state,
                applied_in_order(step, self@.redactions.take(i as int), states),
                forall|state: T, selector: &Selector, redaction: &Redaction|
                    self@.redactions.contains((selector@, redaction@)) ==> call_requires(
                        step,
                        (state, selector, redaction),
                    ),
            decreases n - i,
        {
            let ghost before = state;
            let ghost earlier = states;
            match self.inner.redactions.get(i) {
                Some((selector, redaction)) => {
                    assert(self@.redactions[i as int] == (selector@, redaction@));
                    state = step(state, selector, redaction);
                    assert(applied_at(step, self@.redactions[i as int], before, state));
                },
                None => {},
            }
            proof {
                states = states.push(state);
                let rules = self@.redactions.take(i + 1);
                assert forall|k: int| 0 <= k < rules.len() implies #[trigger] applied_at(
                    step,
                    rules[k],
                    states[k],
                    states[k + 1],
                ) by {
                    if k < i {
                        assert(applied_at(
                            step,
                            self@.redactions.take(i as int)[k],
                            earlier[k],
                            earlier[k + 1],
                        ));
                    }
                }
            }
            i += 1;
        }
        assert(self@.redactions.take(n as int) =~= self@.redactions);
        state
    }

    /// Sets the directory of the snapshot files. A relative path is meant
    /// from where the test lies.
    pub fn set_snapshot_path(&mut self, path: &str)
        ensures
            final(self)@ == old(self)@.with_snapshot_path(path@),
    {
        self._private_inner_mut().snapshot_path = path.to_owned();
    }

    /// The directory of the snapshot files.
    pub fn snapshot_path(&self) -> (r: &str)
        ensures
            r@ == self@.snapshot_path,
    {
        self.inner.snapshot_path.as_str()
    }
}

} // verus!
