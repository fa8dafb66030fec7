//! The entry model and the small supporting types.
use happy_chart_core::activities::{Activity, ActivitySelectionList};
use happy_chart_core::auto_update_status::AutoUpdateStatus;
use happy_chart_core::error_states::HappyChartError;
use happy_chart_core::export::export_stats_rows;
use happy_chart_core::improved_daystat::ImprovedDayStat;
use happy_chart_core::mood_tag::MoodTag;
use happy_chart_core::prompt_states::UserPromptStates;
use happy_chart_core::tutorial_state::TutorialGoal;
use happy_chart_core::user_feedback::{FeedbackRating, HappyChartFeedback};

#[test]
fn entry_fields_round_through_getters() {
    let mut e = ImprovedDayStat::new(
        7250,
        1700000000,
        -28800,
        "note",
        vec![MoodTag::Happy],
        vec![Activity::new("tea")],
    );
    assert_eq!(e.get_rating(), 7250);
    assert_eq!(e.get_date(), 1700000000);
    assert_eq!(e.get_utc_offset(), -28800);
    assert_eq!(e.get_note(), "note");
    assert_eq!(e.get_mood_tags(), &vec![MoodTag::Happy]);
    assert_eq!(e.get_activities().len(), 1);
    e.set_rating(100);
    e.set_note("edited");
    assert_eq!(e.get_rating(), 100);
    assert_eq!(e.get_note(), "edited");
    assert_eq!(e.get_hour_difference(&e.clone()), 0);
}

#[test]
fn hour_difference_is_absolute_seconds() {
    let a = ImprovedDayStat::new(0, 1000, 0, "", vec![], vec![]);
    let b = ImprovedDayStat::new(0, 4600, 0, "", vec![], vec![]);
    assert_eq!(a.get_hour_difference(&b), 3600);
    assert_eq!(b.get_hour_difference(&a), 3600);
}

#[test]
fn mood_lookup_by_name() {
    assert_eq!(MoodTag::get_mood_by_name("happy"), Some(MoodTag::Happy));
    assert_eq!(MoodTag::get_mood_by_name("oNeLy"), Some(MoodTag::Lonely));
    // an empty search term matches the first mood in declaration order
    assert_eq!(MoodTag::get_mood_by_name(""), Some(MoodTag::Happy));
    assert_eq!(MoodTag::get_mood_by_name("no such mood"), None);
}

#[test]
fn mood_texts() {
    assert_eq!(MoodTag::Happy.get_text(), "Happy");
    assert_eq!(MoodTag::Overwhelmed.get_text(), "Overwhelmed");
    assert_eq!(MoodTag::Happy.get_emoji_text(), "😃");
    assert_eq!(MoodTag::Lonely.get_emoji_text(), "🚫🍺");
}

#[test]
fn selection_list_stays_sorted_and_unique() {
    let mut list = ActivitySelectionList::new();
    list.add_new_activity(Activity::new("walk"));
    list.add_new_activity(Activity::new("cook"));
    list.add_new_activity(Activity::new("tea"));
    list.add_new_activity(Activity::new("cook"));
    let names: Vec<&str> =
        list.get_activity_list().iter().map(|a| a.get_activity_name()).collect();
    assert_eq!(names, vec!["cook", "tea", "walk"]);
    list.remove_activity(&Activity::new("tea"));
    let names: Vec<&str> =
        list.get_activity_list().iter().map(|a| a.get_activity_name()).collect();
    assert_eq!(names, vec!["cook", "walk"]);
}

#[test]
fn update_status_text() {
    assert_eq!(AutoUpdateStatus::NotChecked.to_text(), "Not Checked");
    assert_eq!(AutoUpdateStatus::Checking.to_text(), "Checking");
    assert_eq!(AutoUpdateStatus::OutOfDate.to_text(), "Out of date");
    assert_eq!(AutoUpdateStatus::UpToDate("1.2.3".to_string()).to_text(), "Up to date: 1.2.3");
    assert_eq!(AutoUpdateStatus::Updated("2.0.0".to_string()).to_text(), "Updated: 2.0.0");
    assert_eq!(AutoUpdateStatus::Error("offline".to_string()).to_text(), "Error: offline");
}

#[test]
fn error_kind_texts_and_routing() {
    let enc = HappyChartError::EncryptedSaveFile(vec![1, 2, 3]);
    assert!(enc.routes_to_decryption_prompt());
    assert_eq!(enc.kind_text(), "save file appears encrypted");
    let der = HappyChartError::Deserialization;
    assert!(!der.routes_to_decryption_prompt());
    assert_eq!(der.kind_text(), "deserialization error");
    assert_eq!(HappyChartError::EncryptionKeysDontMatch.kind_text(), "encryption keys do not match");
}

#[test]
fn export_rows_fixture() {
    let days = vec![ImprovedDayStat::new(
        7250,
        1700000000,
        0,
        "good day",
        vec![MoodTag::Happy, MoodTag::Curious],
        vec![Activity::new("tea"), Activity::new("walk")],
    )];
    let rows = export_stats_rows(&days);
    assert_eq!(rows.len(), 1);
    assert_eq!(rows[0].date, "1700000000");
    assert_eq!(rows[0].rating, "7250");
    assert_eq!(rows[0].note, "good day");
    assert_eq!(rows[0].moods, "Happy,Curious");
    assert_eq!(rows[0].activities, "tea,walk");
}

#[test]
fn feedback_holds_message_and_rating() {
    let mut f = HappyChartFeedback::default();
    assert_eq!(f.get_message(), "");
    assert_eq!(f.get_feedback(), FeedbackRating::VeryPositive);
    f.set_message("more cats please");
    f.set_feedback(FeedbackRating::Neutral);
    assert_eq!(f.get_message(), "more cats please");
    assert_eq!(f.get_feedback(), FeedbackRating::Neutral);
}

#[test]
fn fresh_profile_defaults() {
    assert_eq!(TutorialGoal::default(), TutorialGoal::BeginTutorial);
    let prompts = UserPromptStates::default();
    assert!(!prompts.tried_logging);
    assert!(!prompts.tried_backups);
}
