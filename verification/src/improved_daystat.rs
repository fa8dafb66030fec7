//! One logged day: rating, zoned time of creation, free-text note, mood tags
//! and activities.
//!
//! Ratings are carried in hundredths of a point, and the creation time as a
//! unix-seconds instant together with the utc offset (seconds east) of the
//! zone it was logged in.
use vstd::prelude::*;

use crate::activities::Activity;
use crate::mood_tag::MoodTag;

verus! {

/// Mathematical shape of one journal entry.
pub ghost struct EntryView {
    /// Rating in hundredths of a point.
    pub rating_centi: int,
    /// Instant of creation, unix seconds.
    pub utc_secs: int,
    /// Offset of the creation zone, seconds east of utc.
    pub offset_secs: int,
    /// Free-text note.
    pub note: Seq<char>,
    /// Mood tags, in the order they were chosen.
    pub moods: Seq<MoodTag>,
    /// Names of the activities of the day.
    pub activities: Seq<Seq<char>>,
}

/// Bound on the numeric fields that keeps every aggregate this crate
/// computes (sums, differences, scaled values) inside machine integers.
pub open spec fn spec_entry_bounded(e: EntryView) -> bool {
    &&& -0x1000000000000000 <= e.rating_centi <= 0x1000000000000000
    &&& -0x1000000000000000 <= e.utc_secs <= 0x1000000000000000
    &&& -0x1000000000000000 <= e.offset_secs <= 0x1000000000000000
}

/// The numeric fields of every in-memory entry fit machine integers.
pub proof fn lemma_entry_view_fits_i64(d: &ImprovedDayStat)
    ensures
        -0x8000000000000000 <= d@.rating_centi <= 0x7fffffffffffffff,
        -0x8000000000000000 <= d@.utc_secs <= 0x7fffffffffffffff,
        -0x8000000000000000 <= d@.offset_secs <= 0x7fffffffffffffff,
{
}

/// One logged day.
#[derive(Debug, PartialEq)]
pub struct ImprovedDayStat {
    rating: i64,
    date: i64,
    utc_offset: i64,
    note: String,
    mood_tags: Vec<MoodTag>,
    activities: Vec<Activity>,
}

impl View for ImprovedDayStat {
    type V = EntryView;

    closed spec fn view(&self) -> EntryView {
        EntryView {
            rating_centi: self.rating as int,
            utc_secs: self.date as int,
            offset_secs: self.utc_offset as int,
            note: self.note@,
            moods: self.mood_tags@,
            activities: self.activities@.map_values(|a: Activity| a@),
        }
    }
}

impl Clone for ImprovedDayStat {
    fn clone(&self) -> (r: Self)
        ensures
            r@ == self@,
    {
        let mut acts: Vec<Activity> = Vec::new();
        let mut i: usize = 0;
        while i < self.activities.len()
            invariant
                i <= self.activities@.len(),
                acts@.map_values(|a: Activity| a@) == self.activities@.map_values(
                    |a: Activity| a@,
                ).subrange(0, i as int),
            decreases self.activities@.len() - i,
        {
            let ghost prev = acts@;
            acts.push(self.activities[i].clone());
            proof {
                let mapped = acts@.map_values(|a: Activity| a@);
                assert(prev.map_values(|a: Activity| a@).len() == prev.len());
                assert(prev.len() == i as int);
                assert forall|j: int|
                    0 <= j < i + 1 implies #[trigger] mapped[j] == self.activities@.map_values(
                    |a: Activity| a@,
                ).subrange(0, i + 1)[j] by {
                    if j < i {
                        assert(acts@[j] == prev[j]);
                        assert((prev.map_values(|a: Activity| a@))[j] == prev[j]@);
                    } else {
                        assert((self.activities@.map_values(|a: Activity| a@))[j]
                            == self.activities@[j]@);
                    }
                }
                assert(mapped =~= self.activities@.map_values(|a: Activity| a@).subrange(
                    0,
                    i + 1,
                ));
            }
            i = i + 1;
        }
        proof {
            let whole = self.activities@.map_values(|a: Activity| a@);
            assert(whole.subrange(0, whole.len() as int) =~= whole);
        }
        let r = ImprovedDayStat {
            rating: self.rating,
            date: self.date,
            utc_offset: self.utc_offset,
            note: self.note.clone(),
            mood_tags: self.mood_tags.clone(),
            activities: acts,
        };
        r
    }
}

impl ImprovedDayStat {
    /// Builds an entry from its parts.
    pub fn new(
        rating: i64,
        date: i64,
        utc_offset: i64,
        note: &str,
        mood_tags: Vec<MoodTag>,
        activities: Vec<Activity>,
    ) -> (r: Self)
        ensures
            r@.rating_centi == rating as int,
            r@.utc_secs == date as int,
            r@.offset_secs == utc_offset as int,
            r@.note == note@,
            r@.moods == mood_tags@,
            r@.activities == activities@.map_values(|a: Activity| a@),
    {
        ImprovedDayStat { rating, date, utc_offset, note: note.to_owned(), mood_tags, activities }
    }

    /// Rating of the day, in hundredths of a point.
    pub fn get_rating(&self) -> (r: i64)
        ensures
            r as int == self@.rating_centi,
    {
        self.rating
    }

    /// Replaces the rating.
    pub fn set_rating(&mut self, rating: i64)
        ensures
            final(self)@ == (EntryView { rating_centi: rating as int, ..old(self)@ }),
    {
        self.rating = rating;
    }

    /// Instant of creation, unix seconds.
    pub fn get_date(&self) -> (r: i64)
        ensures
            r as int == self@.utc_secs,
    {
        self.date
    }

    /// Offset of the creation zone, seconds east of utc.
    pub fn get_utc_offset(&self) -> (r: i64)
        ensures
            r as int == self@.offset_secs,
    {
        self.utc_offset
    }

    /// The free-text note.
    pub fn get_note(&self) -> (r: &str)
        ensures
            r@ == self@.note,
    {
        self.note.as_str()
    }

    /// Replaces the note.
    pub fn set_note(&mut self, note: &str)
        ensures
            final(self)@ == (EntryView { note: note@, ..old(self)@ }),
    {
        self.note = note.to_owned();
    }

    /// The mood tags.
    pub fn get_mood_tags(&self) -> (r: &Vec<MoodTag>)
        ensures
            r@ == self@.moods,
    {
        &self.mood_tags
    }

    /// Replaces the mood tags.
    pub fn set_mood_tags(&mut self, mood_tags: Vec<MoodTag>)
        ensures
            final(self)@ == (EntryView { moods: mood_tags@, ..old(self)@ }),
    {
        self.mood_tags = mood_tags;
    }

    /// The activities of the day.
    pub fn get_activities(&self) -> (r: &Vec<Activity>)
        ensures
            r@.map_values(|a: Activity| a@) == self@.activities,
    {
        &self.activities
    }

    /// Replaces the activities.
    pub fn set_activities(&mut self, activities: Vec<Activity>)
        ensures
            final(self)@ == (EntryView {
                activities: activities@.map_values(|a: Activity| a@),
                ..old(self)@
            }),
    {
        self.activities = activities;
    }

    /// Absolute distance between the creation instants of two entries, in
    /// seconds. The name is historical: callers divide by 3600 themselves.
    pub fn get_hour_difference(&self, compare_day_stat: &Self) -> (r: i64)
        requires
            spec_entry_bounded(self@),
            spec_entry_bounded(compare_day_stat@),
        ensures
            r as int == if self@.utc_secs >= compare_day_stat@.utc_secs {
                self@.utc_secs - compare_day_stat@.utc_secs
            } else {
                compare_day_stat@.utc_secs - self@.utc_secs
            },
    {
        if self.date >= compare_day_stat.date {
            self.date - compare_day_stat.date
        } else {
            compare_day_stat.date - self.date
        }
    }
}

} // verus!
