//! Backup naming and the retention rules.
use happy_chart_core::backup::{
    get_backup_file_list, get_backup_file_name, select_backups_to_remove, should_auto_backup,
    BackupRecord,
};

const DAY: i64 = 86400;

fn record(name: &str, created: i64) -> BackupRecord {
    BackupRecord { file_name: name.to_string(), created_secs: created }
}

fn auto_name(day: u32) -> String {
    get_backup_file_name(1, day, 2024, false)
}

#[test]
fn backup_file_names() {
    assert_eq!(get_backup_file_name(3, 14, 2024, false), "happy_chart_backup_3-14-2024.zip");
    assert_eq!(
        get_backup_file_name(3, 14, 2024, true),
        "happy_chart_backup_3-14-2024_manual.zip"
    );
    assert_eq!(get_backup_file_name(12, 1, 1999, false), "happy_chart_backup_12-1-1999.zip");
}

#[test]
fn stale_list_keeps_only_old_automatic_backups() {
    let now = 100 * DAY;
    let records = vec![
        record(&auto_name(1), now - 10 * DAY),
        record(&get_backup_file_name(1, 2, 2024, true), now - 10 * DAY),
        record(&auto_name(3), now - 2 * DAY),
        record("unrelated.txt", now - 10 * DAY),
        record(&auto_name(4), now - 6 * DAY),
    ];
    let stale = get_backup_file_list(&records, now, 5);
    let names: Vec<&str> = stale.iter().map(|b| b.file_name.as_str()).collect();
    // the manual backup, the fresh backup and the foreign file all stay out
    assert_eq!(names, vec![auto_name(1).as_str(), auto_name(4).as_str()]);
}

#[test]
fn negative_age_threshold_disables_listing() {
    let records = vec![record(&auto_name(1), 0)];
    let stale = get_backup_file_list(&records, 100 * DAY, -1);
    assert!(stale.is_empty());
}

#[test]
fn prune_removes_exactly_the_oldest_surplus() {
    // five stale automatic backups, keep at least two: the three oldest go
    let stale = vec![
        record(&auto_name(3), 3 * DAY),
        record(&auto_name(1), 1 * DAY),
        record(&auto_name(5), 5 * DAY),
        record(&auto_name(2), 2 * DAY),
        record(&auto_name(4), 4 * DAY),
    ];
    let doomed = select_backups_to_remove(&stale, 2);
    let names: Vec<&str> = doomed.iter().map(|b| b.file_name.as_str()).collect();
    assert_eq!(names, vec![auto_name(1).as_str(), auto_name(2).as_str(), auto_name(3).as_str()]);
}

#[test]
fn prune_never_fires_without_surplus() {
    let stale = vec![record(&auto_name(1), 1 * DAY), record(&auto_name(2), 2 * DAY)];
    assert!(select_backups_to_remove(&stale, 2).is_empty());
    assert!(select_backups_to_remove(&stale, 5).is_empty());
    assert!(select_backups_to_remove(&stale, -1).is_empty());
}

#[test]
fn manual_backups_survive_any_age() {
    let now = 1000 * DAY;
    let records = vec![record(&get_backup_file_name(1, 1, 2000, true), 0)];
    let stale = get_backup_file_list(&records, now, 0);
    assert!(stale.is_empty());
}

#[test]
fn auto_backup_cadence() {
    let now = 50 * DAY;
    assert!(should_auto_backup(now, now - 4 * DAY, 3));
    assert!(!should_auto_backup(now, now - 3 * DAY, 3));
    assert!(!should_auto_backup(now, now - 10 * DAY, -1));
}
