//! Where the onboarding tutorial stands.
use vstd::prelude::*;

verus! {

/// The step the onboarding tutorial waits on.
#[derive(Debug, Clone, Copy, PartialEq, Eq, Structural)]
pub enum TutorialGoal {
    BeginTutorial,
    AddRating(bool),
    OpenSelectMood,
    SelectAMood,
    WriteNote,
    AddDay,
    OpenOptions,
    DoneWithTutorial,
    TutorialClosed,
}

impl Default for TutorialGoal {
    /// A fresh profile starts at the beginning of the tutorial.
    fn default() -> (r: Self)
        ensures
            r == TutorialGoal::BeginTutorial,
    {
        TutorialGoal::BeginTutorial
    }
}

} // verus!
