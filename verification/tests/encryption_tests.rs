//! The encryption layer against the real cipher: round trips, wrong keys,
//! and the passphrase checks.
use happy_chart_core::encryption::{
    decrypt_bytes, decrypt_save_file, encrypt_bytes, encrypt_then_decrypt,
    encryption_save_file_checks,
};
use happy_chart_core::error_states::HappyChartError;
use happy_chart_core::improved_daystat::ImprovedDayStat;
use happy_chart_core::mood_tag::MoodTag;
use happy_chart_core::save::save_entries_bytes;

#[test]
fn encrypt_decrypt_round_trip() {
    let data = b"some serialized save data".to_vec();
    let cipher = encrypt_bytes("hunter2!", &data).expect("encryption succeeds");
    assert_ne!(cipher, data);
    let plain = decrypt_bytes("hunter2!", &cipher).expect("decryption succeeds");
    assert_eq!(plain, data);
}

#[test]
fn round_trip_helper_returns_original() {
    let data = vec![0u8, 1, 2, 250, 255];
    let back = encrypt_then_decrypt("pass-phrase", &data).expect("round trip succeeds");
    assert_eq!(back, data);
}

#[test]
fn round_trip_with_longest_and_shortest_keys() {
    let data = b"x".to_vec();
    for key in ["abcd", "0123456789abcdef0123456789abcdef"] {
        let cipher = encrypt_bytes(key, &data).expect("encryption succeeds");
        let plain = decrypt_bytes(key, &cipher).expect("decryption succeeds");
        assert_eq!(plain, data);
    }
}

#[test]
fn wrong_key_fails_never_garbage() {
    let data = b"secret journal".to_vec();
    let cipher = encrypt_bytes("right-key", &data).expect("encryption succeeds");
    assert!(decrypt_bytes("wrong-key", &cipher).is_err());
}

#[test]
fn corrupted_container_fails() {
    let data = b"secret journal".to_vec();
    let mut cipher = encrypt_bytes("right-key", &data).expect("encryption succeeds");
    let last = cipher.len() - 1;
    cipher[last] = cipher[last].wrapping_add(1);
    assert!(decrypt_bytes("right-key", &cipher).is_err());
}

#[test]
fn fixed_seed_keeps_old_saves_readable() {
    // the same passphrase and plaintext give the same container on every run
    let data = b"same input".to_vec();
    let c1 = encrypt_bytes("stable", &data).expect("encryption succeeds");
    let c2 = encrypt_bytes("stable", &data).expect("encryption succeeds");
    assert_eq!(c1, c2);
}

#[test]
fn forged_length_field_is_refused_not_fatal() {
    // a container whose header claims a body far longer than the container
    // itself must come back as an error, never abort
    let mut forged = vec![0u8; 48];
    for i in 12..20 {
        forged[i] = 0xff;
    }
    assert!(decrypt_bytes("some-key", &forged).is_err());
    assert!(decrypt_save_file("some-key", &forged).is_err());
}

#[test]
fn plausible_length_field_with_garbage_fails_cleanly() {
    // the declared length fits the container, but the tag cannot verify
    let mut forged = vec![0u8; 40];
    forged[19] = 4;
    assert!(decrypt_bytes("some-key", &forged).is_err());
}

#[test]
fn truncated_container_fails_cleanly() {
    let short = vec![0u8; 10];
    assert!(decrypt_bytes("some-key", &short).is_err());
    assert!(decrypt_bytes("some-key", &Vec::new()).is_err());
}

#[test]
fn checks_accept_matching_keys_in_range() {
    assert!(encryption_save_file_checks("goodkey", "goodkey").is_ok());
    assert!(encryption_save_file_checks("abcd", "abcd").is_ok());
    let max = "0123456789abcdef0123456789abcdef";
    assert!(encryption_save_file_checks(max, max).is_ok());
}

#[test]
fn checks_reject_mismatched_keys() {
    match encryption_save_file_checks("one-key", "another") {
        Err(HappyChartError::EncryptionKeysDontMatch) => {}
        other => panic!("expected a key mismatch, got {:?}", other),
    }
}

#[test]
fn checks_reject_short_keys() {
    match encryption_save_file_checks("abc", "abc") {
        Err(HappyChartError::EncryptKeyTooShort { primary_key_problem, secondary_key_problem }) => {
            assert!(primary_key_problem);
            assert!(secondary_key_problem);
        }
        other => panic!("expected a too-short error, got {:?}", other),
    }
}

#[test]
fn checks_reject_long_keys() {
    let long = "0123456789abcdef0123456789abcdef0";
    match encryption_save_file_checks(long, long) {
        Err(HappyChartError::EncryptKeyTooLong { primary_key_problem, secondary_key_problem }) => {
            assert!(primary_key_problem);
            assert!(secondary_key_problem);
        }
        other => panic!("expected a too-long error, got {:?}", other),
    }
}

#[test]
fn encrypted_save_file_round_trip() {
    let entries = vec![
        ImprovedDayStat::new(8000, 1700000000, 0, "monday", vec![MoodTag::Happy], vec![]),
        ImprovedDayStat::new(4000, 1700086400, 0, "tuesday", vec![], vec![]),
    ];
    let bytes = save_entries_bytes(&entries);
    let cipher = encrypt_bytes("book-keeper", &bytes).expect("encryption succeeds");
    let back = decrypt_save_file("book-keeper", &cipher).expect("decrypt and parse succeed");
    assert_eq!(back, entries);
}

#[test]
fn decrypt_save_file_wrong_key_is_decryption_error() {
    let bytes = save_entries_bytes(&vec![]);
    let cipher = encrypt_bytes("book-keeper", &bytes).expect("encryption succeeds");
    match decrypt_save_file("not-the-key", &cipher) {
        Err(HappyChartError::DecryptionError(_)) => {}
        other => panic!("expected a decryption error, got {:?}", other),
    }
}
