//! The settings in force on a thread.
//!
//! Each thread has one [`ThreadBinding`]: the slot that holds the settings
//! currently in force there. It starts with the initial settings. Settings
//! are put in force for the time of one call by [`Settings::bind`], which
//! brings the earlier settings back when the call is over, or for good by
//! [`Settings::bind_to_thread`]. No two threads share a slot, so a slot needs
//! no lock.

use vstd::prelude::*;

use crate::settings::{Settings, SettingsView};

verus! {

/// What can happen to the slot of a thread.
pub enum BindingStep {
    /// Settings were in force for the time of one call, which is over.
    Scoped(SettingsView),
    /// Settings were put in force for good.
    Permanent(SettingsView),
    /// The settings in force were read.
    Read,
}

/// The settings in force after one step, given those in force before it.
pub open spec fn after_step(state: SettingsView, step: BindingStep) -> SettingsView {
    match step {
        BindingStep::Scoped(_) => state,
        BindingStep::Permanent(settings) => settings,
        BindingStep::Read => state,
    }
}

/// The settings in force after some steps, one after the other.
pub open spec fn after_steps(state: SettingsView, steps: Seq<BindingStep>) -> SettingsView
    decreases steps.len(),
{
    if steps.len() == 0 {
        state
    } else {
        after_step(after_steps(state, steps.drop_last()), steps.last())
    }
}

/// The slot of one thread.
pub struct ThreadBinding {
    current: Settings,
}

impl View for ThreadBinding {
    type V = SettingsView;

    /// The settings in force.
    closed spec fn view(&self) -> SettingsView {
        self.current@
    }
}

impl ThreadBinding {
    /// The slot of a thread that has bound nothing yet: the initial settings
    /// are in force.
    pub fn new() -> (r: ThreadBinding)
        ensures
            r@ == SettingsView::initial(),
            r.is_default_bound(),
    {
        ThreadBinding { current: Settings::new() }
    }

    /// No settings have displaced the initial ones.
    pub open spec fn is_default_bound(&self) -> bool {
        self@ == SettingsView::initial()
    }

    /// The settings in force.
    pub fn current(&self) -> (r: &Settings)
        ensures
            r@ == self@,
    {
        &self.current
    }

    /// Puts `settings` in force and hands back the settings that were in
    /// force until now.
    pub fn replace(&mut self, settings: Settings) -> (previous: Settings)
        ensures
            final(self)@ == settings@,
            previous@ == old(self)@,
    {
        let mut settings = settings;
        std::mem::swap(&mut self.current, &mut settings);
        settings
    }
}

/// Brings the displaced settings back where a scoped binding is left by
/// unwinding: it holds the slot for as long as the call runs, and when it is
/// dropped with the slot still in it, it puts the displaced settings back.
struct Restore<'a> {
    binding: Option<&'a mut ThreadBinding>,
    saved: Settings,
}

impl<'a> Drop for Restore<'a> {
    fn drop(&mut self)
        opens_invariants none
        no_unwind
    {
        let mut held: Option<&'a mut ThreadBinding> = None;
        std::mem::swap(&mut self.binding, &mut held);
        match held {
            Some(binding) => {
                std::mem::swap(&mut binding.current, &mut self.saved);
            },
            None => {},
        }
    }
}

impl Settings {
    /// Runs `f` with these settings in force on the thread of `binding`.
    ///
    /// `f` is handed the slot, in which these settings are in force, and runs to
    /// its end before `bind` returns. Whatever `f` returns, a failure that it
    /// reports as much as a result, and whatever it did to the slot, the
    /// settings that were in force before are in force again afterwards, and
    /// what `f` returned is handed on as it is. Where `f` is left by unwinding
    /// the earlier settings are put back as well, before the unwinding goes on.
    pub fn bind<R, F: FnOnce(&mut ThreadBinding) -> R>(
        &self,
        binding: &mut ThreadBinding,
        f: F,
    ) -> (r: R)
        requires
            forall|inside: &mut ThreadBinding| inside@ == self@ ==> call_requires(f, (inside,)),
        ensures
            final(binding)@ == old(binding)@,
            final(binding)@ == after_step(old(binding)@, BindingStep::Scoped(self@)),
            exists|inside: &mut ThreadBinding|
                inside@ == self@ && #[trigger] call_ensures(f, (inside,), r),
    {
        let saved = binding.replace(self.clone());
        let mut guard = Restore { binding: Some(binding), saved };
        let r = match &mut guard.binding {
            Some(inside) => f(inside),
            None => unreached(),
        };
        let mut held: Option<&mut ThreadBinding> = None;
        std::mem::swap(&mut guard.binding, &mut held);
        match held {
            Some(binding) => {
                std::mem::swap(&mut binding.current, &mut guard.saved);
            },
            None => {},
        }
        r
    }

    /// Puts these settings in force on the thread of `binding` for good: they
    /// stay until other settings are bound.
    pub fn bind_to_thread(&self, binding: &mut ThreadBinding)
        ensures
            final(binding)@ == self@,
            final(binding)@ == after_step(old(binding)@, BindingStep::Permanent(self@)),
    {
        binding.replace(self.clone());
    }

    /// Runs `f` on the settings in force on the thread of `binding`.
    pub fn with<R, F: FnOnce(&Settings) -> R>(binding: &ThreadBinding, f: F) -> (r: R)
        requires
            forall|current: &Settings| current@ == binding@ ==> call_requires(f, (current,)),
        ensures
            exists|current: &Settings| current@ == binding@ && #[trigger] call_ensures(f, (current,), r),
    {
        f(binding.current())
    }
}

} // verus!
