//! The operating modes of a session.
use vstd::prelude::*;

verus! {

#[derive(Clone, Copy, Debug, PartialEq, Eq, Hash, Structural)]
pub enum OperatingMode {
    Auto,
    ReadOnly,
    Plan,
    Jev,
}

impl Default for OperatingMode {
    fn default() -> (r: OperatingMode)
        ensures
            r == OperatingMode::Auto,
    {
        OperatingMode::Auto
    }
}

/// The mode that a change of mode leads to.
pub open spec fn following(mode: OperatingMode) -> OperatingMode {
    match mode {
        OperatingMode::Auto => OperatingMode::ReadOnly,
        OperatingMode::ReadOnly => OperatingMode::Plan,
        OperatingMode::Plan => OperatingMode::Jev,
        OperatingMode::Jev => OperatingMode::Auto,
    }
}

impl OperatingMode {
    /// Whether tools may change the workspace.
    pub fn allows_mutation(self) -> (r: bool)
        ensures
            r == (self is Auto || self is Jev),
    {
        match self {
            OperatingMode::Auto | OperatingMode::Jev => true,
            OperatingMode::ReadOnly | OperatingMode::Plan => false,
        }
    }

    /// The next mode in turn.
    pub fn next(self) -> (r: OperatingMode)
        ensures
            r == following(self),
    {
        match self {
            OperatingMode::Auto => OperatingMode::ReadOnly,
            OperatingMode::ReadOnly => OperatingMode::Plan,
            OperatingMode::Plan => OperatingMode::Jev,
            OperatingMode::Jev => OperatingMode::Auto,
        }
    }
}

/// Going on from a mode comes back to it after four steps and no fewer.
pub proof fn law_modes_form_one_cycle(mode: OperatingMode)
    ensures
        following(following(following(following(mode)))) == mode,
        following(mode) != mode,
        following(following(mode)) != mode,
        following(following(following(mode))) != mode,
{
}

} // verus!
