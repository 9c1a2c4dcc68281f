//! Settings for snapshot tests, with their proofs.
//!
//! A test chooses how captured values are normalised before they are compared
//! with a stored snapshot: whether maps are sorted, where the snapshot files
//! lie, and which parts of a value are redacted. The choices are held in
//! [`settings::Settings`], a handle that is cheap to clone and copies its
//! value on the first write. Settings are put in force on a thread for the
//! time of one call or for good, through the thread's
//! [`binding::ThreadBinding`].
//!
//! Redactions are rules: a [`selector::Selector`] says which values a rule
//! applies to, a [`redaction::Redaction`] what is done to them. Rules are
//! kept, listed and applied in the order in which they were registered.

pub mod binding;
pub mod content;
pub mod decimal;
pub mod grammar;
pub mod laws;
pub mod path;
pub mod redaction;
pub mod selector;
pub mod settings;
mod shared;

pub use binding::ThreadBinding;
pub use content::Content;
pub use path::ContentPath;
pub use redaction::Redaction;
pub use redaction::Redactions;
pub use selector::Selector;
pub use settings::Settings;
