//! The statistics engine: weekday averages and the longest streak of
//! closely spaced entries. Activity correlation lives in its own module.
//!
//! Everything here is pure over the entry list; nothing is cached behind
//! the caller's back. Averages are exact rationals (a sum in hundredths and
//! a count), never a rounded stand-in; an empty weekday stays undefined.
use vstd::prelude::*;

use crate::activity_stats::ActivityStats;
use crate::improved_daystat::{spec_entry_bounded, EntryView, ImprovedDayStat};
use vstd::arithmetic::div_mod::{lemma_hoist_over_denominator, lemma_mod_multiples_vanish};

verus! {

/// A day of the week.
#[derive(Debug, Clone, Copy, PartialEq, Eq, Structural)]
pub enum Weekday {
    Mon,
    Tue,
    Wed,
    Thu,
    Fri,
    Sat,
    Sun,
}

/// Index of a weekday, Monday first.
pub open spec fn spec_weekday_index(w: Weekday) -> int {
    match w {
        Weekday::Mon => 0,
        Weekday::Tue => 1,
        Weekday::Wed => 2,
        Weekday::Thu => 3,
        Weekday::Fri => 4,
        Weekday::Sat => 5,
        Weekday::Sun => 6,
    }
}

/// The calendar day (days since the epoch, in the entry's own zone) an
/// entry was logged on.
pub open spec fn spec_local_day(e: EntryView) -> int {
    (e.utc_secs + e.offset_secs) / 86400
}

/// Weekday index of an entry, Monday = 0; the epoch day was a Thursday.
pub open spec fn spec_weekday_of(e: EntryView) -> int {
    (spec_local_day(e) + 3) % 7
}

/// Weekday index from an instant and a zone offset, Monday = 0.
pub fn weekday_index_of(secs: i64, offset: i64) -> (r: usize)
    requires
        -0x1000000000000000 <= secs <= 0x1000000000000000,
        -0x1000000000000000 <= offset <= 0x1000000000000000,
    ensures
        r < 7,
        r as int == spec_weekday_of(
            EntryView {
                rating_centi: 0,
                utc_secs: secs as int,
                offset_secs: offset as int,
                note: Seq::empty(),
                moods: Seq::empty(),
                activities: Seq::empty(),
            },
        ),
{
    let local: i64 = secs + offset;
    let shifted: u64 = (local + 2419200000000000000i64) as u64;
    let days: u64 = shifted / 86400;
    let w: u64 = (days + 3) % 7;
    proof {
        lemma_hoist_over_denominator(local as int, 28000000000000, 86400nat);
        assert(shifted as int == local as int + 28000000000000int * 86400);
        assert(days as int == (local as int) / 86400 + 28000000000000);
        lemma_mod_multiples_vanish(4000000000000, (local as int) / 86400 + 3, 7);
        assert(days + 3 == 7 * 4000000000000 + ((local as int) / 86400 + 3));
    }
    w as usize
}

/// Weekday index of an entry, Monday = 0.
pub fn entry_weekday_index(e: &ImprovedDayStat) -> (r: usize)
    requires
        spec_entry_bounded(e@),
    ensures
        r < 7,
        r as int == spec_weekday_of(e@),
{
    weekday_index_of(e.get_date(), e.get_utc_offset())
}

/// An exact average: a total in hundredths of a point, and how many values
/// went into it. A zero count means the average is undefined, and callers
/// must treat it so rather than read it as zero.
#[derive(Debug, Clone, Copy, PartialEq, Eq)]
pub struct DayAverage {
    /// Sum of the ratings, in hundredths of a point.
    pub total_centi: i128,
    /// How many entries the total covers.
    pub count: usize,
}

impl DayAverage {
    /// The undefined average.
    pub fn empty() -> (r: Self)
        ensures
            r.total_centi == 0,
            r.count == 0,
    {
        DayAverage { total_centi: 0, count: 0 }
    }

    /// True when at least one entry went in, so the mean exists.
    pub fn is_defined(&self) -> (r: bool)
        ensures
            r == (self.count != 0),
    {
        self.count != 0
    }

    /// The mean in hundredths of a point, truncated toward zero; `None`
    /// when no entry went in.
    pub fn mean_centi(&self) -> (r: Option<i64>)
        requires
            -0x1000000000000000 * (self.count as int) <= self.total_centi <= 0x1000000000000000 * (
            self.count as int),
        ensures
            self.count == 0 <==> r is None,
            self.count != 0 ==> r == Some(
                (if self.total_centi >= 0 {
                    self.total_centi as int / self.count as int
                } else {
                    -((-(self.total_centi as int)) / (self.count as int))
                }) as i64,
            ),
    {
        if self.count == 0 {
            None
        } else {
            proof {
                lemma_div_bound_by_quotient(
                    if self.total_centi >= 0 {
                        self.total_centi as int
                    } else {
                        -(self.total_centi as int)
                    },
                    self.count as int,
                    0x1000000000000000,
                );
            }
            if self.total_centi >= 0 {
                let q: u128 = (self.total_centi as u128) / (self.count as u128);
                Some(q as i64)
            } else {
                let q: u128 = ((-self.total_centi) as u128) / (self.count as u128);
                Some(-(q as i64))
            }
        }
    }
}

/// A non-negative total of at most `bound` per value averages to at most
/// `bound`.
proof fn lemma_div_bound_by_quotient(total: int, count: int, bound: int)
    requires
        count > 0,
        bound >= 0,
        0 <= total <= bound * count,
    ensures
        0 <= total / count <= bound,
{
    vstd::arithmetic::div_mod::lemma_div_pos_is_pos(total, count);
    vstd::arithmetic::div_mod::lemma_div_is_ordered(total, bound * count, count);
    vstd::arithmetic::div_mod::lemma_div_multiples_vanish(bound, count);
    assert(count * bound == bound * count) by (nonlinear_arith);
}

/// Sum of the ratings of a list of entries, in hundredths of a point.
pub open spec fn spec_rating_sum(s: Seq<EntryView>) -> int
    decreases s.len(),
{
    if s.len() == 0 {
        0int
    } else {
        spec_rating_sum(s.drop_last()) + s.last().rating_centi
    }
}

/// The entries of a list that fall on the given weekday.
pub open spec fn spec_on_weekday(days: Seq<EntryView>, w: Weekday) -> Seq<EntryView> {
    days.filter(|e: EntryView| spec_weekday_of(e) == spec_weekday_index(w))
}

/// A rating sum over bounded entries stays small.
pub proof fn lemma_rating_sum_bound(s: Seq<EntryView>)
    requires
        forall|k: int| 0 <= k < s.len() ==> spec_entry_bounded(#[trigger] s[k]),
    ensures
        -0x1000000000000000 * s.len() <= spec_rating_sum(s) <= 0x1000000000000000 * s.len(),
    decreases s.len(),
{
    if s.len() > 0 {
        assert(forall|k: int|
            0 <= k < s.drop_last().len() ==> spec_entry_bounded(#[trigger] s.drop_last()[k]));
        lemma_rating_sum_bound(s.drop_last());
    }
}

/// Average rating of the entries falling on one weekday: their exact sum
/// and count; a weekday with no entries yields the undefined average.
pub fn get_average_for_day_of_week(day_of_week: Weekday, days: &Vec<ImprovedDayStat>) -> (r:
    DayAverage)
    requires
        forall|k: int| 0 <= k < days@.len() ==> spec_entry_bounded(#[trigger] days@[k]@),
    ensures
        ({
            let picked = spec_on_weekday(days@.map_values(|d: ImprovedDayStat| d@), day_of_week);
            r.count == picked.len() && r.total_centi == spec_rating_sum(picked)
        }),
{
    let ghost views = days@.map_values(|d: ImprovedDayStat| d@);
    let ghost pred = |e: EntryView| spec_weekday_of(e) == spec_weekday_index(day_of_week);
    let target = weekday_number(day_of_week);
    let mut total: i128 = 0;
    let mut count: usize = 0;
    proof {
        reveal(Seq::filter);
        assert(views.subrange(0, 0).filter(pred) =~= Seq::<EntryView>::empty());
    }
    let mut i: usize = 0;
    while i < days.len()
        invariant
            forall|k: int| 0 <= k < days@.len() ==> spec_entry_bounded(#[trigger] days@[k]@),
            views == days@.map_values(|d: ImprovedDayStat| d@),
            pred == (|e: EntryView| spec_weekday_of(e) == spec_weekday_index(day_of_week)),
            target as int == spec_weekday_index(day_of_week),
            i <= days@.len(),
            count == views.subrange(0, i as int).filter(pred).len(),
            total == spec_rating_sum(views.subrange(0, i as int).filter(pred)),
            count <= i,
            -0x1000000000000000 * (count as int) <= total <= 0x1000000000000000 * (count as int),
        decreases days@.len() - i,
    {
        let ghost prefix = views.subrange(0, i as int);
        let w = entry_weekday_index(&days[i]);
        proof {
            reveal(Seq::filter);
            assert(views[i as int] == days@[i as int]@);
            assert(views.subrange(0, i + 1).drop_last() =~= prefix);
            assert(views.subrange(0, i + 1).last() == views[i as int]);
        }
        if w == target {
            let rating = days[i].get_rating();
            proof {
                assert(spec_entry_bounded(views[i as int]));
            }
            total = total + (rating as i128);
            count = count + 1;
            proof {
                let f1 = views.subrange(0, i + 1).filter(pred);
                assert(f1 =~= prefix.filter(pred).push(views[i as int]));
                assert(f1.drop_last() =~= prefix.filter(pred));
                assert(f1.last() == views[i as int]);
                assert(spec_rating_sum(f1) == spec_rating_sum(f1.drop_last())
                    + f1.last().rating_centi);
            }
        } else {
            proof {
                assert(views.subrange(0, i + 1).filter(pred) =~= prefix.filter(pred));
            }
        }
        i = i + 1;
    }
    proof {
        assert(views.subrange(0, views.len() as int) =~= views);
    }
    DayAverage { total_centi: total, count }
}

/// Numeric index of a weekday, Monday = 0.
pub fn weekday_number(w: Weekday) -> (r: usize)
    ensures
        r as int == spec_weekday_index(w),
{
    match w {
        Weekday::Mon => 0,
        Weekday::Tue => 1,
        Weekday::Wed => 2,
        Weekday::Thu => 3,
        Weekday::Fri => 4,
        Weekday::Sat => 5,
        Weekday::Sun => 6,
    }
}

/// One exact average per weekday.
#[derive(Debug, Clone, Copy)]
pub struct WeekdayAverages {
    pub avg_monday: DayAverage,
    pub avg_tuesday: DayAverage,
    pub avg_wednesday: DayAverage,
    pub avg_thursday: DayAverage,
    pub avg_friday: DayAverage,
    pub avg_saturday: DayAverage,
    pub avg_sunday: DayAverage,
}

/// The average of one weekday matches the entries falling on it.
pub open spec fn spec_weekday_avg_ok(days: Seq<EntryView>, w: Weekday, a: DayAverage) -> bool {
    let picked = spec_on_weekday(days, w);
    a.count == picked.len() && a.total_centi == spec_rating_sum(picked)
}

impl WeekdayAverages {
    /// All seven averages start undefined.
    pub fn new() -> (r: Self)
        ensures
            r.avg_monday.count == 0,
            r.avg_tuesday.count == 0,
            r.avg_wednesday.count == 0,
            r.avg_thursday.count == 0,
            r.avg_friday.count == 0,
            r.avg_saturday.count == 0,
            r.avg_sunday.count == 0,
    {
        WeekdayAverages {
            avg_monday: DayAverage::empty(),
            avg_tuesday: DayAverage::empty(),
            avg_wednesday: DayAverage::empty(),
            avg_thursday: DayAverage::empty(),
            avg_friday: DayAverage::empty(),
            avg_saturday: DayAverage::empty(),
            avg_sunday: DayAverage::empty(),
        }
    }

    /// Recomputes all seven weekday averages from the entry list.
    pub fn calc_averages(&mut self, list: &Vec<ImprovedDayStat>)
        requires
            forall|k: int| 0 <= k < list@.len() ==> spec_entry_bounded(#[trigger] list@[k]@),
        ensures
            ({
                let views = list@.map_values(|d: ImprovedDayStat| d@);
                &&& spec_weekday_avg_ok(views, Weekday::Mon, final(self).avg_monday)
                &&& spec_weekday_avg_ok(views, Weekday::Tue, final(self).avg_tuesday)
                &&& spec_weekday_avg_ok(views, Weekday::Wed, final(self).avg_wednesday)
                &&& spec_weekday_avg_ok(views, Weekday::Thu, final(self).avg_thursday)
                &&& spec_weekday_avg_ok(views, Weekday::Fri, final(self).avg_friday)
                &&& spec_weekday_avg_ok(views, Weekday::Sat, final(self).avg_saturday)
                &&& spec_weekday_avg_ok(views, Weekday::Sun, final(self).avg_sunday)
            }),
    {
        self.avg_monday = get_average_for_day_of_week(Weekday::Mon, list);
        self.avg_tuesday = get_average_for_day_of_week(Weekday::Tue, list);
        self.avg_wednesday = get_average_for_day_of_week(Weekday::Wed, list);
        self.avg_thursday = get_average_for_day_of_week(Weekday::Thu, list);
        self.avg_friday = get_average_for_day_of_week(Weekday::Fri, list);
        self.avg_saturday = get_average_for_day_of_week(Weekday::Sat, list);
        self.avg_sunday = get_average_for_day_of_week(Weekday::Sun, list);
    }
}

// ---------------------------------------------------------------------------
// Streaks
// ---------------------------------------------------------------------------
/// The longest streak: its run length and where it starts and ends. The end
/// index is one past the run's last entry.
#[derive(Debug, Clone, Copy, PartialEq, Eq, Structural)]
pub struct Days {
    pub longest_streak: u32,
    pub streak_start_index: usize,
    pub streak_end_index: usize,
}

/// Whole hours from entry `a` to entry `b`, truncated toward zero;
/// negative when `b` lies before `a`.
pub open spec fn spec_hour_gap(a: EntryView, b: EntryView) -> int {
    let d = b.utc_secs - a.utc_secs;
    if d >= 0 {
        d / 3600
    } else {
        -((-d) / 3600)
    }
}

/// Length of the run starting at `i`: entries are walked while each next
/// one lies within the leniency (in hours) of the previous one.
pub open spec fn spec_run_len(days: Seq<EntryView>, leniency: int, i: int) -> int
    decreases days.len() - i,
{
    if i < 0 || i >= days.len() {
        0
    } else if i + 1 >= days.len() || spec_hour_gap(days[i], days[i + 1]) > leniency {
        1
    } else {
        1 + spec_run_len(days, leniency, i + 1)
    }
}

/// The longest run length over all starting indices below `n`.
pub open spec fn spec_max_run_upto(days: Seq<EntryView>, leniency: int, n: int) -> int
    decreases n,
{
    if n <= 0 {
        0
    } else if spec_run_len(days, leniency, n - 1) > spec_max_run_upto(days, leniency, n - 1) {
        spec_run_len(days, leniency, n - 1)
    } else {
        spec_max_run_upto(days, leniency, n - 1)
    }
}

/// What the streak scan reports: the longest run, its first starting index,
/// and the end one past its last entry.
pub open spec fn spec_streak_ok(days: Seq<EntryView>, leniency: int, d: Days) -> bool {
    if days.len() == 0 {
        d == (Days { longest_streak: 0, streak_start_index: 0, streak_end_index: 0 })
    } else {
        &&& d.longest_streak as int == spec_max_run_upto(days, leniency, days.len() as int)
        &&& spec_run_len(days, leniency, d.streak_start_index as int) == d.longest_streak as int
        &&& forall|j: int|
            0 <= j < d.streak_start_index ==> spec_run_len(days, leniency, j)
                < d.longest_streak as int
        &&& d.streak_end_index as int == d.streak_start_index + d.longest_streak
    }
}

/// Whole hours from entry `a` to entry `b`, truncated toward zero.
fn hour_gap(a: &ImprovedDayStat, b: &ImprovedDayStat) -> (r: i64)
    requires
        spec_entry_bounded(a@),
        spec_entry_bounded(b@),
    ensures
        r as int == spec_hour_gap(a@, b@),
{
    let d: i64 = b.get_date() - a.get_date();
    if d >= 0 {
        ((d as u64) / 3600) as i64
    } else {
        -((((-d) as u64) / 3600) as i64)
    }
}

/// Every run below `n` is at most the maximum over runs below `n`.
proof fn lemma_max_run_upto_ge(days: Seq<EntryView>, leniency: int, j: int, n: int)
    requires
        0 <= j < n,
    ensures
        spec_run_len(days, leniency, j) <= spec_max_run_upto(days, leniency, n),
    decreases n,
{
    if j < n - 1 {
        lemma_max_run_upto_ge(days, leniency, j, n - 1);
    }
}

/// Scans the sorted entry list for the longest streak: the longest run of
/// entries whose consecutive gaps stay within the leniency (in hours).
/// Reports the first such run's start, its end (one past the last entry)
/// and its length.
pub fn calc_streak(list: &Vec<ImprovedDayStat>, leniency: u32) -> (r: Days)
    requires
        forall|k: int| 0 <= k < list@.len() ==> spec_entry_bounded(#[trigger] list@[k]@),
        list@.len() <= 0x3fffffff,
    ensures
        spec_streak_ok(list@.map_values(|d: ImprovedDayStat| d@), leniency as int, r),
{
    let ghost views = list@.map_values(|d: ImprovedDayStat| d@);
    let n = list.len();
    if n == 0 {
        return Days { longest_streak: 0, streak_start_index: 0, streak_end_index: 0 };
    }
    let mut best: usize = 0;
    let mut best_i: usize = 0;
    let mut i: usize = 0;
    while i < n
        invariant
            forall|k: int| 0 <= k < list@.len() ==> spec_entry_bounded(#[trigger] list@[k]@),
            views == list@.map_values(|d: ImprovedDayStat| d@),
            n == list@.len(),
            n <= 0x3fffffff,
            i <= n,
            best as int == spec_max_run_upto(views, leniency as int, i as int),
            best <= n,
            i > 0 ==> best_i < i && spec_run_len(views, leniency as int, best_i as int)
                == best as int,
            i > 0 ==> best >= 1,
            forall|j: int|
                0 <= j < best_i ==> spec_run_len(views, leniency as int, j) < best as int,
            best_i <= i,
        decreases n - i,
    {
        // walk the run that starts at i
        let mut j: usize = i;
        while j + 1 < n && hour_gap(&list[j], &list[j + 1]) <= leniency as i64
            invariant
                forall|k: int| 0 <= k < list@.len() ==> spec_entry_bounded(#[trigger] list@[k]@),
                views == list@.map_values(|d: ImprovedDayStat| d@),
                n == list@.len(),
                i <= j < n,
                spec_run_len(views, leniency as int, i as int) == (j - i) + spec_run_len(
                    views,
                    leniency as int,
                    j as int,
                ),
            decreases n - j,
        {
            proof {
                assert(views[j as int] == list@[j as int]@);
                assert(views[j + 1] == list@[j + 1]@);
            }
            j = j + 1;
        }
        proof {
            if j + 1 < n {
                assert(views[j as int] == list@[j as int]@);
                assert(views[j + 1] == list@[j + 1]@);
            }
            assert(spec_run_len(views, leniency as int, j as int) == 1);
        }
        let run: usize = j - i + 1;
        proof {
            assert(spec_run_len(views, leniency as int, i as int) == run as int);
            assert(spec_max_run_upto(views, leniency as int, i + 1) == if spec_run_len(
                views,
                leniency as int,
                i as int,
            ) > spec_max_run_upto(views, leniency as int, i as int) {
                spec_run_len(views, leniency as int, i as int)
            } else {
                spec_max_run_upto(views, leniency as int, i as int)
            });
        }
        if run > best {
            proof {
                assert forall|j: int|
                    0 <= j < i implies spec_run_len(views, leniency as int, j) < run as int by {
                    lemma_max_run_upto_ge(views, leniency as int, j, i as int);
                }
            }
            best = run;
            best_i = i;
        }
        i = i + 1;
    }
    Days {
        longest_streak: best as u32,
        streak_start_index: best_i,
        streak_end_index: best_i + best,
    }
}

// ---------------------------------------------------------------------------
// The snapshot of all derived statistics
// ---------------------------------------------------------------------------
/// Derived statistics over the entry list: weekday averages, the longest
/// streak, and activity correlation. Fully recomputed on demand, never
/// updated incrementally.
#[derive(Debug)]
pub struct StateStats {
    avg_weekdays: WeekdayAverages,
    longest_streak: Days,
    activity_stats: ActivityStats,
}

impl StateStats {
    /// An empty snapshot: undefined averages, no streak, empty correlation.
    pub fn new() -> (r: Self)
        ensures
            r.get_streak_spec() == (Days {
                longest_streak: 0u32,
                streak_start_index: 0usize,
                streak_end_index: 0usize,
            }),
    {
        StateStats {
            avg_weekdays: WeekdayAverages::new(),
            longest_streak: Days { longest_streak: 0, streak_start_index: 0, streak_end_index: 0 },
            activity_stats: ActivityStats::new(),
        }
    }

    /// The streak field, for specifications.
    pub closed spec fn get_streak_spec(&self) -> Days {
        self.longest_streak
    }

    /// The weekday averages.
    pub fn get_avgs_stats(&self) -> (r: &WeekdayAverages)
        ensures
            r == self.get_avgs_spec(),
    {
        &self.avg_weekdays
    }

    /// The weekday averages field, for specifications.
    pub closed spec fn get_avgs_spec(&self) -> WeekdayAverages {
        self.avg_weekdays
    }

    /// The longest streak.
    pub fn get_streak_stats(&self) -> (r: &Days)
        ensures
            r == self.get_streak_spec(),
    {
        &self.longest_streak
    }

    /// The activity correlation.
    pub fn get_activity_stats(&self) -> (r: &ActivityStats)
        ensures
            r == self.get_activity_spec(),
    {
        &self.activity_stats
    }

    /// The activity correlation field, for specifications.
    pub closed spec fn get_activity_spec(&self) -> ActivityStats {
        self.activity_stats
    }

    /// Recomputes every derived statistic from the entry list, which the
    /// caller keeps sorted by date.
    pub fn calc_all_stats(&mut self, days: &Vec<ImprovedDayStat>, leniency: u32)
        requires
            forall|k: int| 0 <= k < days@.len() ==> spec_entry_bounded(#[trigger] days@[k]@),
            days@.len() <= 0x3fffffff,
        ensures
            ({
                let views = days@.map_values(|d: ImprovedDayStat| d@);
                &&& spec_weekday_avg_ok(views, Weekday::Mon, final(self).get_avgs_spec().avg_monday)
                &&& spec_weekday_avg_ok(
                    views,
                    Weekday::Tue,
                    final(self).get_avgs_spec().avg_tuesday,
                )
                &&& spec_weekday_avg_ok(
                    views,
                    Weekday::Wed,
                    final(self).get_avgs_spec().avg_wednesday,
                )
                &&& spec_weekday_avg_ok(
                    views,
                    Weekday::Thu,
                    final(self).get_avgs_spec().avg_thursday,
                )
                &&& spec_weekday_avg_ok(views, Weekday::Fri, final(self).get_avgs_spec().avg_friday)
                &&& spec_weekday_avg_ok(
                    views,
                    Weekday::Sat,
                    final(self).get_avgs_spec().avg_saturday,
                )
                &&& spec_weekday_avg_ok(views, Weekday::Sun, final(self).get_avgs_spec().avg_sunday)
                &&& spec_streak_ok(views, leniency as int, final(self).get_streak_spec())
                &&& crate::activity_stats::spec_activity_stats_ok(
                    views,
                    final(self).get_activity_spec(),
                )
            }),
    {
        self.avg_weekdays.calc_averages(days);
        self.activity_stats = crate::activity_stats::calc_activity_stats(days);
        self.longest_streak = calc_streak(days, leniency);
    }
}

} // verus!
