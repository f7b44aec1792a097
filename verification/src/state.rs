//! What the program remembers between sessions.
use vstd::prelude::*;

verus! {

/// Whether the command input showed several lines.
#[derive(Clone, Copy, Debug)]
pub struct CachedState {
    pub multiline: bool,
}

impl Default for CachedState {
    /// Nothing remembered: one line.
    fn default() -> (s: CachedState)
        ensures
            !s.multiline,
    {
        CachedState { multiline: false }
    }
}

} // verus!
