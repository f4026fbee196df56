//! Installation profiles.

use vstd::prelude::*;

verus! {

/// A named base set of components.
#[derive(Debug, Clone, Copy, PartialEq, Eq, Hash, Structural)]
pub enum Profile {
    /// No component but those named explicitly.
    Empty,
    /// The base developer tools.
    Minimal,
    /// Every component.
    Complete,
}

impl DeepView for Profile {
    type V = Profile;

    open spec fn deep_view(&self) -> Profile {
        *self
    }
}

impl Default for Profile {
    fn default() -> (r: Self)
        ensures
            r == Profile::Minimal,
    {
        Profile::Minimal
    }
}

} // verus!
