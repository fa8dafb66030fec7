//! Which one-time feature prompts the user has already seen.
use vstd::prelude::*;

verus! {

/// Which one-time feature prompts were already shown.
#[derive(Debug, Clone, Copy, PartialEq, Eq, Structural)]
pub struct UserPromptStates {
    pub tried_logging: bool,
    pub tried_backups: bool,
}

impl Default for UserPromptStates {
    /// A fresh profile has seen no prompt.
    fn default() -> (r: Self)
        ensures
            !r.tried_logging,
            !r.tried_backups,
    {
        UserPromptStates { tried_logging: false, tried_backups: false }
    }
}

} // verus!
