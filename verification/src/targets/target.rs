//! Target backends: one unit of behavior per supported application.
//!
//! A backend has a canonical display name and an `apply` operation. Backends
//! are stateless, and `apply`'s contract pins its result to a spec-level
//! function of the backend and the theme alone, so applying the same theme
//! twice reports the same outcome as applying it once. The mechanism a real
//! backend uses to reconfigure its application (config rewrite, IPC, control
//! socket) is outside this crate; the backends here decide and report.

use vstd::prelude::*;

use crate::theme::Theme;

verus! {

/// The uniform contract every target backend implements.
pub trait MasqTarget: Sized {
    /// The backend's canonical display name.
    spec fn spec_name(&self) -> Seq<char>;

    /// The outcome `apply` reports for `theme`: success, or a failure
    /// message. A backend holds no per-invocation state, so this is a
    /// function of the backend and the theme alone — which is what makes
    /// `apply` idempotent.
    spec fn spec_apply(&self, theme: Theme) -> Result<(), Seq<char>>;

    /// The canonical display name, used for progress and error reporting.
    fn get_name(&self) -> (r: &'static str)
        ensures
            r@ == self.spec_name(),
    ;

    /// Applies `theme` to this backend's target application. Never mutates
    /// the theme, and reports exactly the outcome `spec_apply` names.
    fn apply(&self, theme: &Theme) -> (r: Result<(), String>)
        ensures
            r is Ok <==> self.spec_apply(*theme) is Ok,
            r is Err ==> r->Err_0@ == self.spec_apply(*theme)->Err_0,
    ;
}

/// The window-manager backend.
pub struct SwayTarget;

impl MasqTarget for SwayTarget {
    open spec fn spec_name(&self) -> Seq<char> {
        "SwayTarget"@
    }

    open spec fn spec_apply(&self, theme: Theme) -> Result<(), Seq<char>> {
        Ok(())
    }

    fn get_name(&self) -> (r: &'static str) {
        "SwayTarget"
    }

    fn apply(&self, theme: &Theme) -> (r: Result<(), String>) {
        Ok(())
    }
}

/// The GUI-toolkit backend.
pub struct Gtk3Target;

impl MasqTarget for Gtk3Target {
    open spec fn spec_name(&self) -> Seq<char> {
        "Gtk3Target"@
    }

    open spec fn spec_apply(&self, theme: Theme) -> Result<(), Seq<char>> {
        Ok(())
    }

    fn get_name(&self) -> (r: &'static str) {
        "Gtk3Target"
    }

    fn apply(&self, theme: &Theme) -> (r: Result<(), String>) {
        Ok(())
    }
}

/// A backend whose target application can never be reached: `apply` always
/// reports failure. It stands in for a backend whose config file or control
/// socket is gone, and gives failure isolation something concrete to bite
/// on.
pub struct UnreachableTarget;

impl MasqTarget for UnreachableTarget {
    open spec fn spec_name(&self) -> Seq<char> {
        "UnreachableTarget"@
    }

    open spec fn spec_apply(&self, theme: Theme) -> Result<(), Seq<char>> {
        Err("target application is unreachable"@)
    }

    fn get_name(&self) -> (r: &'static str) {
        "UnreachableTarget"
    }

    fn apply(&self, theme: &Theme) -> (r: Result<(), String>) {
        Err("target application is unreachable".to_owned())
    }
}

/// The backends a registry can hold, as one type. Adding a backend means
/// adding a variant and its delegation arms here; the registry and the
/// dispatch driver need no change.
pub enum TargetBackend {
    Sway(SwayTarget),
    Gtk3(Gtk3Target),
    Unreachable(UnreachableTarget),
}

impl MasqTarget for TargetBackend {
    open spec fn spec_name(&self) -> Seq<char> {
        match self {
            TargetBackend::Sway(t) => t.spec_name(),
            TargetBackend::Gtk3(t) => t.spec_name(),
            TargetBackend::Unreachable(t) => t.spec_name(),
        }
    }

    open spec fn spec_apply(&self, theme: Theme) -> Result<(), Seq<char>> {
        match self {
            TargetBackend::Sway(t) => t.spec_apply(theme),
            TargetBackend::Gtk3(t) => t.spec_apply(theme),
            TargetBackend::Unreachable(t) => t.spec_apply(theme),
        }
    }

    fn get_name(&self) -> (r: &'static str) {
        match self {
            TargetBackend::Sway(t) => t.get_name(),
            TargetBackend::Gtk3(t) => t.get_name(),
            TargetBackend::Unreachable(t) => t.get_name(),
        }
    }

    fn apply(&self, theme: &Theme) -> (r: Result<(), String>) {
        match self {
            TargetBackend::Sway(t) => t.apply(theme),
            TargetBackend::Gtk3(t) => t.apply(theme),
            TargetBackend::Unreachable(t) => t.apply(theme),
        }
    }
}

/// Applies the same theme to the same backend twice in a row and hands both
/// results back. Each call reports exactly the outcome `spec_apply` names,
/// so both calls report the same outcome: a backend's result is a function
/// of the backend and the theme, and a second application neither fails anew
/// nor does anything the first did not.
pub fn apply_twice<B: MasqTarget>(backend: &B, theme: &Theme) -> (r: (
    Result<(), String>,
    Result<(), String>,
))
    ensures
        r.0 is Ok <==> backend.spec_apply(*theme) is Ok,
        r.0 is Err ==> r.0->Err_0@ == backend.spec_apply(*theme)->Err_0,
        r.1 is Ok <==> backend.spec_apply(*theme) is Ok,
        r.1 is Err ==> r.1->Err_0@ == backend.spec_apply(*theme)->Err_0,
        r.0 is Ok <==> r.1 is Ok,
        r.0 is Err ==> r.0->Err_0@ == r.1->Err_0@,
{
    let first = backend.apply(theme);
    let second = backend.apply(theme);
    (first, second)
}

} // verus!
