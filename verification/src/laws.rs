//! What holds of settings and selectors whatever their values are.

use vstd::prelude::*;

use crate::binding::{after_step, after_steps, BindingStep};
use crate::path::{item_segment, path_segments, path_text, PathItemView};
use crate::redaction::{Redaction, RuleView};
use crate::grammar::{
    is_selector, lemma_reading_unique, parses_as, reading, segment_matches, segment_ok,
    SegmentView, selector_matches, selector_text,
};
use crate::selector::Selector;
use crate::settings::{applied_at, applied_in_order, SettingsView};

verus! {

/// Copy on write keeps handles apart: of two handles `a` and `b` that were
/// cloned from one handle, a change of the sorting of maps made through `a`
/// shows in `a` and leaves `b` with everything that the common origin had.
pub proof fn law_clones_are_isolated(
    origin: SettingsView,
    a: SettingsView,
    b: SettingsView,
    value: bool,
)
    requires
        a == origin,
        b == origin,
    ensures
        a.with_sort_maps(value).sort_maps == value,
        b.sort_maps == origin.sort_maps,
        b == origin,
{
}

/// A change of one tunable leaves the others as they were.
pub proof fn law_setters_are_independent(
    s: SettingsView,
    value: bool,
    path: Seq<char>,
    rules: Seq<RuleView>,
)
    ensures
        s.with_sort_maps(value).snapshot_path == s.snapshot_path,
        s.with_sort_maps(value).redactions == s.redactions,
        s.with_snapshot_path(path).sort_maps == s.sort_maps,
        s.with_snapshot_path(path).redactions == s.redactions,
        s.with_redactions(rules).sort_maps == s.sort_maps,
        s.with_redactions(rules).snapshot_path == s.snapshot_path,
{
}

/// Rules stay in the order of their registration: a rule registered after
/// another one stands behind it, and no registration moves or drops a rule
/// that was there.
pub proof fn law_registration_order(s: SettingsView, first: RuleView, second: RuleView)
    ensures
        s.with_rule(first).with_rule(second).redactions == s.redactions + seq![first, second],
        s.with_rule(first).with_rule(second).redactions[s.redactions.len() as int] == first,
        s.with_rule(first).with_rule(second).redactions[s.redactions.len() as int + 1] == second,
        forall|i: int|
            0 <= i < s.redactions.len() ==> s.with_rule(first).with_rule(second).redactions[i]
                == s.redactions[i],
        s.with_rule(first).extends(s),
{
    assert(s.with_rule(first).with_rule(second).redactions =~= s.redactions + seq![first, second]);
    assert(s.redactions.push(first).last() == first);
}

/// A later rule sees what the earlier rules have left: where two rules were
/// registered one after the other, and the redactions are applied, the
/// second rule is given the very value that the first one returned.
pub proof fn law_later_rule_sees_earlier_result<T, F: Fn(T, &Selector, &Redaction) -> T>(
    s: SettingsView,
    first: RuleView,
    second: RuleView,
    step: F,
    states: Seq<T>,
)
    requires
        applied_in_order(step, s.with_rule(first).with_rule(second).redactions, states),
    ensures
        exists|between: T| #[trigger]
            applied_at(step, first, states[s.redactions.len() as int], between) && applied_at(
                step,
                second,
                between,
                states.last(),
            ),
{
    let n = s.redactions.len() as int;
    let rules = s.with_rule(first).with_rule(second).redactions;
    assert(rules[n] == first);
    assert(rules[n + 1] == second);
    assert(applied_at(step, rules[n], states[n], states[n + 1]));
    assert(applied_at(step, rules[n + 1], states[n + 1], states[n + 1 + 1]));
}

/// After the redactions were cleared none is left, however many there were,
/// and clearing once more changes nothing.
pub proof fn law_clear_leaves_nothing(s: SettingsView)
    ensures
        s.with_redactions(Seq::empty()).redactions.len() == 0,
        s.with_redactions(Seq::empty()).with_redactions(Seq::empty()) == s.with_redactions(
            Seq::empty(),
        ),
        s.with_redactions(Seq::empty()).sort_maps == s.sort_maps,
        s.with_redactions(Seq::empty()).snapshot_path == s.snapshot_path,
{
}

/// The initial settings: maps are not sorted, the snapshots lie in
/// `snapshots`, nothing is redacted.
pub proof fn law_initial_settings()
    ensures
        !SettingsView::initial().sort_maps,
        SettingsView::initial().snapshot_path == seq![
            's',
            'n',
            'a',
            'p',
            's',
            'h',
            'o',
            't',
            's',
        ],
        SettingsView::initial().redactions.len() == 0,
{
    reveal_strlit("snapshots");
    assert(SettingsView::initial().snapshot_path =~= seq![
        's',
        'n',
        'a',
        'p',
        's',
        'h',
        'o',
        't',
        's',
    ]);
}

/// A scoped binding leaves no trace: when the call is over, whatever came of
/// it, the settings that were in force before are in force again.
pub proof fn law_scoped_binding_restores(state: SettingsView, bound: SettingsView)
    ensures
        after_step(state, BindingStep::Scoped(bound)) == state,
{
}

/// A permanent binding stays: after settings were put in force for good they
/// are in force after any number of reads and of scoped bindings of other
/// settings, until settings are put in force for good again.
pub proof fn law_permanent_binding_stays(
    state: SettingsView,
    bound: SettingsView,
    steps: Seq<BindingStep>,
)
    requires
        forall|i: int| 0 <= i < steps.len() ==> !(#[trigger] steps[i] is Permanent),
    ensures
        after_steps(after_step(state, BindingStep::Permanent(bound)), steps) == bound,
    decreases steps.len(),
{
    if steps.len() > 0 {
        let earlier = steps.drop_last();
        assert forall|i: int| 0 <= i < earlier.len() implies !(#[trigger] earlier[i] is Permanent) by {
            assert(earlier[i] == steps[i]);
        }
        law_permanent_binding_stays(state, bound, earlier);
        assert(!(steps[steps.len() - 1] is Permanent));
    }
}

/// A thread that has bound nothing for good has the initial settings in force.
pub proof fn law_unbound_thread_has_initial_settings(steps: Seq<BindingStep>)
    requires
        forall|i: int| 0 <= i < steps.len() ==> !(#[trigger] steps[i] is Permanent),
    ensures
        after_steps(SettingsView::initial(), steps) == SettingsView::initial(),
    decreases steps.len(),
{
    if steps.len() > 0 {
        let earlier = steps.drop_last();
        assert forall|i: int| 0 <= i < earlier.len() implies !(#[trigger] earlier[i] is Permanent) by {
            assert(earlier[i] == steps[i]);
        }
        law_unbound_thread_has_initial_settings(earlier);
        assert(!(steps[steps.len() - 1] is Permanent));
    }
}

/// A selector is read in one way only: the segments whose text it is are its
/// reading, and writing them down gives the selector back.
pub proof fn law_selector_reading(text: Seq<char>, segs: Seq<SegmentView>)
    requires
        segs.len() > 0,
        parses_as(text, segs),
    ensures
        is_selector(text),
        reading(text) == segs,
        selector_text(reading(text)) == text,
{
    lemma_reading_unique(text, segs, reading(text));
}

/// A path whose keys are names is written as a selector, and that selector
/// picks the value at this path and at no other.
pub proof fn law_path_is_its_own_selector(path: Seq<PathItemView>, other: Seq<PathItemView>)
    requires
        path.len() > 0,
        forall|i: int| 0 <= i < path.len() ==> segment_ok(item_segment(#[trigger] path[i])),
    ensures
        is_selector(path_text(path)),
        reading(path_text(path)) == path_segments(path),
        selector_matches(path_segments(path), path),
        selector_matches(path_segments(path), other) ==> other == path,
{
    let segs = path_segments(path);
    assert(parses_as(path_text(path), segs));
    lemma_reading_unique(path_text(path), segs, reading(path_text(path)));
    if selector_matches(segs, other) {
        assert forall|i: int| 0 <= i < path.len() implies other[i] == path[i] by {
            assert(segment_matches(segs[i], other[i]));
        }
        assert(other =~= path);
    }
}

/// `.*` picks every value one step below the root, `[]` every item of a
/// list at the root and no entry of a dictionary.
pub proof fn law_wildcards(item: PathItemView)
    ensures
        selector_matches(seq![SegmentView::Wildcard], seq![item]),
        selector_matches(seq![SegmentView::All], seq![item]) <==> item is Index,
{
    let all = seq![SegmentView::All];
    let path = seq![item];
    assert(all[0] == SegmentView::All);
    assert(path[0] == item);
    if selector_matches(all, path) {
        assert(segment_matches(all[0], path[0]));
    }
}

} // verus!
