//! How far what was observed may travel.
use vstd::prelude::*;

verus! {

/// The sensitivity that an observation has from the strictest privacy zone it touched. What must
/// not be observed at all has no value here: it leaves no event behind.
#[derive(Debug, Clone, Copy, PartialEq, Eq, Structural)]
pub enum EventSensitivity {
    /// Stays on the machine.
    LocalOnly,
    /// May be shown to a reader in the cloud.
    CloudAllowed,
}

/// A privacy zone.
#[derive(Debug, Clone, Copy, PartialEq, Eq, Structural)]
pub enum Zone {
    /// May be shown to a reader in the cloud.
    CloudAllowed,
    /// Stays on the machine.
    LocalOnly,
    /// Is not observed at all.
    NeverObserve,
}

} // verus!
