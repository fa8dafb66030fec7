//! User feedback the program can send home: a message and a rating.
use vstd::prelude::*;

verus! {

/// The message part of a feedback note.
#[derive(Debug, Clone, PartialEq, Eq)]
pub struct Message(pub String);

/// How satisfied the user says they are.
#[derive(Debug, Clone, Copy, PartialEq, Eq, Structural, Hash)]
pub enum FeedbackRating {
    VeryPositive,
    SomewhatPositive,
    Neutral,
    SomewhatNegative,
    VeryNegative,
}

/// One feedback note.
#[derive(Debug, Clone, PartialEq, Eq)]
pub struct HappyChartFeedback {
    message: Message,
    rating: FeedbackRating,
}

impl Default for HappyChartFeedback {
    /// An empty note with the kindest rating preselected.
    fn default() -> (r: Self)
        ensures
            r.spec_message() == Seq::<char>::empty(),
            r.spec_rating() == FeedbackRating::VeryPositive,
    {
        HappyChartFeedback {
            message: Message(String::new()),
            rating: FeedbackRating::VeryPositive,
        }
    }
}

impl HappyChartFeedback {
    /// The message text, for specifications.
    pub closed spec fn spec_message(&self) -> Seq<char> {
        self.message.0@
    }

    /// The rating, for specifications.
    pub closed spec fn spec_rating(&self) -> FeedbackRating {
        self.rating
    }

    /// The message text.
    pub fn get_message(&self) -> (r: &str)
        ensures
            r@ == self.spec_message(),
    {
        self.message.0.as_str()
    }

    /// Replaces the message text.
    pub fn set_message(&mut self, text: &str)
        ensures
            final(self).spec_message() == text@,
            final(self).spec_rating() == old(self).spec_rating(),
    {
        self.message = Message(text.to_owned());
    }

    /// The rating.
    pub fn get_feedback(&self) -> (r: FeedbackRating)
        ensures
            r == self.spec_rating(),
    {
        self.rating
    }

    /// Replaces the rating.
    pub fn set_feedback(&mut self, new_rating: FeedbackRating)
        ensures
            final(self).spec_rating() == new_rating,
            final(self).spec_message() == old(self).spec_message(),
    {
        self.rating = new_rating;
    }
}

} // verus!
