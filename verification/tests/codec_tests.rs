//! The save-file codec: round trips, the legacy layout, and how unreadable
//! or foreign input is classified.
use happy_chart_core::activities::Activity;
use happy_chart_core::error_states::HappyChartError;
use happy_chart_core::improved_daystat::ImprovedDayStat;
use happy_chart_core::legacy::decode_legacy_entries;
use happy_chart_core::mood_tag::MoodTag;
use happy_chart_core::save::{load_save_bytes, save_entries_bytes, SaveFormat};
use happy_chart_core::save_codec::{decode_entries, encode_entries, encode_then_decode};

fn sample_entries() -> Vec<ImprovedDayStat> {
    vec![
        ImprovedDayStat::new(
            7250,
            1700000000,
            -28800,
            "a fine day",
            vec![MoodTag::Happy, MoodTag::Curious],
            vec![Activity::new("reading"), Activity::new("walking")],
        ),
        ImprovedDayStat::new(-150, 1700086400, 3600, "", vec![], vec![]),
        ImprovedDayStat::new(
            10000,
            1700172800,
            0,
            "quotes \" and \\ and\nnewlines\tand tabs",
            vec![MoodTag::Overwhelmed],
            vec![Activity::new("nap, with a comma")],
        ),
    ]
}

#[test]
fn round_trip_entries() {
    let entries = sample_entries();
    let text = encode_entries(&entries);
    let back = decode_entries(text.as_str()).expect("own encoding parses");
    assert_eq!(back, entries);
}

#[test]
fn round_trip_helper_matches() {
    let entries = sample_entries();
    assert_eq!(encode_then_decode(&entries), entries);
}

#[test]
fn round_trip_empty_list() {
    let entries: Vec<ImprovedDayStat> = vec![];
    let text = encode_entries(&entries);
    assert_eq!(text, "[]");
    let back = decode_entries(text.as_str()).expect("empty list parses");
    assert!(back.is_empty());
}

#[test]
fn round_trip_unicode_note() {
    let entries = vec![ImprovedDayStat::new(
        50,
        0,
        0,
        "ünïcödé 😃 note",
        vec![],
        vec![Activity::new("café")],
    )];
    let text = encode_entries(&entries);
    let back = decode_entries(text.as_str()).expect("unicode parses");
    assert_eq!(back, entries);
}

#[test]
fn current_format_is_self_describing() {
    let entries = vec![ImprovedDayStat::new(7250, 12, -60, "hi", vec![MoodTag::Happy], vec![])];
    let text = encode_entries(&entries);
    assert_eq!(
        text,
        "[{\"rating\":7250,\"secs\":12,\"offset\":-60,\"note\":\"hi\",\"moods\":[0],\"activities\":[]}]"
    );
}

#[test]
fn garbage_does_not_parse() {
    assert!(decode_entries("not a save file").is_none());
    assert!(decode_entries("").is_none());
    assert!(decode_entries("[{\"rating\":1}]").is_none());
    // trailing bytes after the list are refused
    assert!(decode_entries("[]x").is_none());
}

#[test]
fn legacy_record_migrates() {
    // a historical record: rating 72.0 at instant 1_700_000_000
    let text = "[{\"rating\":72.0,\"date\":1700000000,\"note\":\"old note\"}]";
    let entries = decode_legacy_entries(text, -28800).expect("legacy parses");
    assert_eq!(entries.len(), 1);
    assert_eq!(entries[0].get_rating(), 7200);
    assert_eq!(entries[0].get_date(), 1700000000);
    assert_eq!(entries[0].get_utc_offset(), -28800);
    assert_eq!(entries[0].get_note(), "old note");
    assert!(entries[0].get_mood_tags().is_empty());
    assert!(entries[0].get_activities().is_empty());
}

#[test]
fn legacy_fraction_is_truncated_to_hundredths() {
    let text = "[{\"rating\":-3.14159,\"date\":0,\"note\":\"\"}]";
    let entries = decode_legacy_entries(text, 0).expect("legacy parses");
    assert_eq!(entries[0].get_rating(), -314);
    let text2 = "[{\"rating\":2.5,\"date\":0,\"note\":\"\"}]";
    let entries2 = decode_legacy_entries(text2, 0).expect("legacy parses");
    assert_eq!(entries2[0].get_rating(), 250);
}

#[test]
fn load_prefers_current_format() {
    let entries = sample_entries();
    let bytes = save_entries_bytes(&entries);
    let (back, format) = load_save_bytes(bytes, 0).expect("load succeeds");
    assert_eq!(format, SaveFormat::Current);
    assert_eq!(back, entries);
}

#[test]
fn load_falls_back_to_legacy() {
    let bytes = "[{\"rating\":50.0,\"date\":1000,\"note\":\"n\"}]".as_bytes().to_vec();
    let (back, format) = load_save_bytes(bytes, 3600).expect("legacy load succeeds");
    assert_eq!(format, SaveFormat::Legacy);
    assert_eq!(back.len(), 1);
    assert_eq!(back[0].get_rating(), 5000);
    assert_eq!(back[0].get_date(), 1000);
    assert_eq!(back[0].get_utc_offset(), 3600);
}

#[test]
fn load_reports_unreadable_text_as_garbage() {
    let bytes = "readable but not a save".as_bytes().to_vec();
    match load_save_bytes(bytes, 0) {
        Err(HappyChartError::Deserialization) => {}
        other => panic!("expected a deserialization error, got {:?}", other),
    }
}

#[test]
fn load_reports_binary_as_encrypted() {
    let bytes = vec![0xff, 0xfe, 0x00, 0x99, 0x80];
    match load_save_bytes(bytes.clone(), 0) {
        Err(HappyChartError::EncryptedSaveFile(carried)) => assert_eq!(carried, bytes),
        other => panic!("expected the appears-encrypted signal, got {:?}", other),
    }
}

#[test]
fn load_empty_file_is_garbage_not_encrypted() {
    match load_save_bytes(Vec::new(), 0) {
        Err(HappyChartError::Deserialization) => {}
        other => panic!("expected a deserialization error, got {:?}", other),
    }
}
