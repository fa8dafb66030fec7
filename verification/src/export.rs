//! Rows for the spreadsheet export: one row per entry, with the instant,
//! the rating in hundredths, the note, and the moods and activities each
//! joined by commas. Writing the file is the caller's business.
use vstd::prelude::*;

use crate::improved_daystat::{EntryView, ImprovedDayStat};
use crate::json::{push_chars, push_dec_i64, spec_dec_int};
use crate::mood_tag::{spec_mood_name, MoodTag};
use crate::activities::Activity;
use crate::text::{chars_of, string_from_chars};

verus! {

/// Mood names joined by commas.
pub open spec fn spec_joined_moods(ms: Seq<MoodTag>) -> Seq<char>
    decreases ms.len(),
{
    if ms.len() == 0 {
        Seq::empty()
    } else if ms.len() == 1 {
        spec_mood_name(ms[0])
    } else {
        spec_mood_name(ms[0]) + (seq![','] + spec_joined_moods(ms.drop_first()))
    }
}

/// Names joined by commas.
pub open spec fn spec_joined_names(names: Seq<Seq<char>>) -> Seq<char>
    decreases names.len(),
{
    if names.len() == 0 {
        Seq::empty()
    } else if names.len() == 1 {
        names[0]
    } else {
        names[0] + (seq![','] + spec_joined_names(names.drop_first()))
    }
}

/// One export row.
#[derive(Debug, PartialEq, Eq)]
pub struct CsvRow {
    /// The creation instant, unix seconds in decimal.
    pub date: String,
    /// The rating, in hundredths of a point, in decimal.
    pub rating: String,
    /// The note, verbatim.
    pub note: String,
    /// The mood names, joined by commas.
    pub moods: String,
    /// The activity names, joined by commas.
    pub activities: String,
}

/// The row an entry exports to.
pub open spec fn spec_csv_row_ok(e: EntryView, r: &CsvRow) -> bool {
    &&& r.date@ == spec_dec_int(e.utc_secs)
    &&& r.rating@ == spec_dec_int(e.rating_centi)
    &&& r.note@ == e.note
    &&& r.moods@ == spec_joined_moods(e.moods)
    &&& r.activities@ == spec_joined_names(e.activities)
}

/// Appends the mood names from position `start` on, joined by commas.
fn push_mood_names(out: &mut Vec<char>, ms: &Vec<MoodTag>, start: usize)
    requires
        start <= ms@.len(),
    ensures
        final(out)@ == old(out)@ + spec_joined_moods(ms@.skip(start as int)),
    decreases ms@.len() - start,
{
    if start < ms.len() {
        let name = chars_of(ms[start].get_text().as_str());
        push_chars(out, &name);
        proof {
            assert(ms@.skip(start as int)[0] == ms@[start as int]);
        }
        if start + 1 < ms.len() {
            out.push(',');
            push_mood_names(out, ms, start + 1);
            proof {
                assert(ms@.skip(start as int).drop_first() =~= ms@.skip(start + 1));
                assert(final(out)@ =~= old(out)@ + spec_joined_moods(ms@.skip(start as int)));
            }
        } else {
            proof {
                assert(ms@.skip(start as int).len() == 1);
            }
        }
    } else {
        proof {
            assert(ms@.skip(start as int) =~= Seq::<MoodTag>::empty());
            assert(old(out)@ + spec_joined_moods(ms@.skip(start as int)) =~= old(out)@);
        }
    }
}

/// Appends the activity names from position `start` on, joined by commas.
fn push_activity_names(out: &mut Vec<char>, acts: &Vec<Activity>, start: usize)
    requires
        start <= acts@.len(),
    ensures
        final(out)@ == old(out)@ + spec_joined_names(
            acts@.map_values(|a: Activity| a@).skip(start as int),
        ),
    decreases acts@.len() - start,
{
    let ghost names = acts@.map_values(|a: Activity| a@);
    if start < acts.len() {
        let name = chars_of(acts[start].get_activity_name());
        push_chars(out, &name);
        proof {
            assert(names.skip(start as int)[0] == names[start as int]);
            assert(names[start as int] == acts@[start as int]@);
        }
        if start + 1 < acts.len() {
            out.push(',');
            push_activity_names(out, acts, start + 1);
            proof {
                assert(names.skip(start as int).drop_first() =~= names.skip(start + 1));
                assert(final(out)@ =~= old(out)@ + spec_joined_names(names.skip(start as int)));
            }
        } else {
            proof {
                assert(names.skip(start as int).len() == 1);
            }
        }
    } else {
        proof {
            assert(names.skip(start as int) =~= Seq::<Seq<char>>::empty());
            assert(old(out)@ + spec_joined_names(names.skip(start as int)) =~= old(out)@);
        }
    }
}

/// The decimal text of a number.
fn dec_text(n: i64) -> (r: String)
    ensures
        r@ == spec_dec_int(n as int),
{
    let mut buf: Vec<char> = Vec::new();
    push_dec_i64(&mut buf, n);
    string_from_chars(&buf)
}

/// The export row of one entry.
fn csv_row_of(e: &ImprovedDayStat) -> (r: CsvRow)
    ensures
        spec_csv_row_ok(e@, &r),
{
    let mut moods_buf: Vec<char> = Vec::new();
    push_mood_names(&mut moods_buf, e.get_mood_tags(), 0);
    let mut acts_buf: Vec<char> = Vec::new();
    push_activity_names(&mut acts_buf, e.get_activities(), 0);
    proof {
        assert(e@.moods.skip(0) =~= e@.moods);
        assert(e@.activities.skip(0) =~= e@.activities);
    }
    CsvRow {
        date: dec_text(e.get_date()),
        rating: dec_text(e.get_rating()),
        note: e.get_note().to_owned(),
        moods: string_from_chars(&moods_buf),
        activities: string_from_chars(&acts_buf),
    }
}

/// The export rows of the whole entry list, one per entry, in order.
pub fn export_stats_rows(days: &Vec<ImprovedDayStat>) -> (r: Vec<CsvRow>)
    ensures
        r@.len() == days@.len(),
        forall|i: int| 0 <= i < r@.len() ==> spec_csv_row_ok(days@[i]@, #[trigger] &r@[i]),
{
    let mut out: Vec<CsvRow> = Vec::new();
    let mut i: usize = 0;
    while i < days.len()
        invariant
            i <= days@.len(),
            out@.len() == i,
            forall|j: int| 0 <= j < i ==> spec_csv_row_ok(days@[j]@, #[trigger] &out@[j]),
        decreases days@.len() - i,
    {
        out.push(csv_row_of(&days[i]));
        i = i + 1;
    }
    out
}

} // verus!
