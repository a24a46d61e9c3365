//! How the curator is doing.
use vstd::prelude::*;
use crate::time::Timestamp;

verus! {

/// How the curator is doing.
#[derive(Debug, Clone, Copy, PartialEq, Eq, Structural)]
pub struct CuratorStatus {
    /// When the last pass ended, well or not.
    pub last_pass_at: Option<Timestamp>,
    /// How many passes have failed since one did not.
    pub consecutive_failures: u32,
    /// How many notes have been written so far.
    pub candidates_written_total: u64,
    /// How many notes the user has not decided about.
    pub pending_count: u64,
}

impl Default for CuratorStatus {
    fn default() -> (r: Self)
        ensures
            r == (CuratorStatus {
                last_pass_at: None,
                consecutive_failures: 0,
                candidates_written_total: 0,
                pending_count: 0,
            }),
    {
        CuratorStatus {
            last_pass_at: None,
            consecutive_failures: 0,
            candidates_written_total: 0,
            pending_count: 0,
        }
    }
}

} // verus!
