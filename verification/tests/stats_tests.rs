//! The statistics engine: weekday averages, streaks, and activity
//! correlation, on concrete fixtures.
use happy_chart_core::activity_stats::calc_activity_stats;
use happy_chart_core::activities::Activity;
use happy_chart_core::improved_daystat::ImprovedDayStat;
use happy_chart_core::state_stats::{
    calc_streak, get_average_for_day_of_week, weekday_index_of, StateStats, Weekday,
};

fn plain(rating_centi: i64, secs: i64) -> ImprovedDayStat {
    ImprovedDayStat::new(rating_centi, secs, 0, "", vec![], vec![])
}

fn with_acts(rating_centi: i64, secs: i64, acts: &[&str]) -> ImprovedDayStat {
    let list: Vec<Activity> = acts.iter().map(|a| Activity::new(a)).collect();
    ImprovedDayStat::new(rating_centi, secs, 0, "", vec![], list)
}

// 2023-11-13 00:00 utc was a Monday.
const MONDAY: i64 = 1699833600;

#[test]
fn streak_fixture_hours() {
    // entries at hours 0, 10, 40, 50, 60 with a 24-hour leniency:
    // 0->10 stays (10 <= 24), 10->40 breaks (30 > 24), 40->50->60 stays,
    // so the longest run is the three entries at 40, 50 and 60.
    let days: Vec<ImprovedDayStat> =
        [0i64, 10, 40, 50, 60].iter().map(|h| plain(5000, h * 3600)).collect();
    let streak = calc_streak(&days, 24);
    assert_eq!(streak.longest_streak, 3);
    assert_eq!(streak.streak_start_index, 2);
    assert_eq!(streak.streak_end_index, 5);
}

#[test]
fn streak_single_entry() {
    let days = vec![plain(5000, 0)];
    let streak = calc_streak(&days, 24);
    assert_eq!(streak.longest_streak, 1);
    assert_eq!(streak.streak_start_index, 0);
    assert_eq!(streak.streak_end_index, 1);
}

#[test]
fn streak_empty_list() {
    let days: Vec<ImprovedDayStat> = vec![];
    let streak = calc_streak(&days, 24);
    assert_eq!(streak.longest_streak, 0);
    assert_eq!(streak.streak_start_index, 0);
    assert_eq!(streak.streak_end_index, 0);
}

#[test]
fn streak_reports_first_of_tied_runs() {
    // two runs of length 2: the earlier one is reported
    let days: Vec<ImprovedDayStat> =
        [0i64, 10, 100, 110].iter().map(|h| plain(5000, h * 3600)).collect();
    let streak = calc_streak(&days, 24);
    assert_eq!(streak.longest_streak, 2);
    assert_eq!(streak.streak_start_index, 0);
    assert_eq!(streak.streak_end_index, 2);
}

#[test]
fn weekday_of_known_dates() {
    assert_eq!(weekday_index_of(MONDAY, 0), 0);
    assert_eq!(weekday_index_of(MONDAY + 86400, 0), 1);
    assert_eq!(weekday_index_of(MONDAY + 6 * 86400, 0), 6);
    // the epoch day was a Thursday
    assert_eq!(weekday_index_of(0, 0), 3);
    // a zone offset can move the local calendar day
    assert_eq!(weekday_index_of(MONDAY - 3600, 0), 6);
    assert_eq!(weekday_index_of(MONDAY - 3600, 3600), 0);
}

#[test]
fn weekday_averages_fixture() {
    // exactly one Monday entry rated 80.00 and one Tuesday entry rated 40.00
    let days = vec![plain(8000, MONDAY), plain(4000, MONDAY + 86400)];
    let monday = get_average_for_day_of_week(Weekday::Mon, &days);
    let tuesday = get_average_for_day_of_week(Weekday::Tue, &days);
    assert_eq!(monday.mean_centi(), Some(8000));
    assert_eq!(tuesday.mean_centi(), Some(4000));
    for w in [Weekday::Wed, Weekday::Thu, Weekday::Fri, Weekday::Sat, Weekday::Sun] {
        let avg = get_average_for_day_of_week(w, &days);
        // an empty weekday is undefined, never zero
        assert!(!avg.is_defined());
        assert_eq!(avg.mean_centi(), None);
    }
}

#[test]
fn weekday_average_is_exact() {
    // three Mondays, one week apart: 70.00, 80.00, 95.00 average 81.66 (truncated)
    let days = vec![
        plain(7000, MONDAY),
        plain(8000, MONDAY + 7 * 86400),
        plain(9500, MONDAY + 14 * 86400),
    ];
    let monday = get_average_for_day_of_week(Weekday::Mon, &days);
    assert_eq!(monday.count, 3);
    assert_eq!(monday.total_centi, 24500);
    assert_eq!(monday.mean_centi(), Some(8166));
}

#[test]
fn activity_tie_breaks_alphabetically() {
    // eight entries, four with one activity each; the favorable bucket is
    // the two best-rated, whose activities are tied at one occurrence each
    let days = vec![
        with_acts(9000, 0, &["zebra"]),
        with_acts(8000, 1000, &["apple"]),
        with_acts(7000, 2000, &["mango"]),
        with_acts(6000, 3000, &["kiwi"]),
        plain(100, 4000),
        plain(200, 5000),
        plain(300, 6000),
        plain(400, 7000),
    ];
    let stats = calc_activity_stats(&days);
    assert_eq!(stats.day_stats_counted_happy, 2);
    assert_eq!(stats.day_stats_counted_sad, 2);
    let happy: Vec<(&str, usize)> = stats
        .top_three_common_happy_activities
        .iter()
        .map(|(a, c)| (a.get_activity_name(), *c))
        .collect();
    assert_eq!(happy, vec![("apple", 1), ("zebra", 1)]);
    let sad: Vec<(&str, usize)> = stats
        .top_three_common_sad_activities
        .iter()
        .map(|(a, c)| (a.get_activity_name(), *c))
        .collect();
    assert_eq!(sad, vec![("kiwi", 1), ("mango", 1)]);
    assert_eq!(stats.average_rating_for_happy_activity_days.mean_centi(), Some(8500));
    assert_eq!(stats.average_rating_for_sad_activity_days.mean_centi(), Some(6500));
}

#[test]
fn activity_top_three_by_count() {
    // one quarter of twelve entries is three; make the three best-rated
    // carry repeated activities
    let mut days = vec![
        with_acts(9000, 0, &["tea", "walk"]),
        with_acts(8500, 1000, &["walk", "tea", "walk"]),
        with_acts(8000, 2000, &["walk", "cook", "tea", "nap"]),
    ];
    for i in 0..9i64 {
        days.push(with_acts(1000 + i, 10000 + i, &["doom-scrolling"]));
    }
    let stats = calc_activity_stats(&days);
    let happy: Vec<(&str, usize)> = stats
        .top_three_common_happy_activities
        .iter()
        .map(|(a, c)| (a.get_activity_name(), *c))
        .collect();
    // walk 4, tea 3, then cook and nap tied at 1: cook wins by name
    assert_eq!(happy, vec![("walk", 4), ("tea", 3), ("cook", 1)]);
}

#[test]
fn activity_stats_empty_without_activities() {
    let days = vec![plain(5000, 0), plain(6000, 1000), plain(7000, 2000), plain(8000, 3000)];
    let stats = calc_activity_stats(&days);
    assert!(stats.top_three_common_happy_activities.is_empty());
    assert!(stats.top_three_common_sad_activities.is_empty());
    assert_eq!(stats.day_stats_counted_happy, 0);
    assert!(!stats.average_rating_for_happy_activity_days.is_defined());
}

#[test]
fn snapshot_recomputes_everything() {
    let days = vec![plain(8000, MONDAY), plain(4000, MONDAY + 10 * 3600)];
    let mut stats = StateStats::new();
    stats.calc_all_stats(&days, 24);
    assert_eq!(stats.get_streak_stats().longest_streak, 2);
    assert_eq!(stats.get_avgs_stats().avg_monday.mean_centi(), Some(6000));
    assert_eq!(stats.get_activity_stats().day_stats_counted_happy, 0);
}
