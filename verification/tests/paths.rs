use audio_workflow::paths::{dir_path_string, file_path_string, filename_for_upload,
    path_is_confined, strip_files_prefix, timestamp_in_filename};
use audio_workflow::Date;

#[test]
fn directory_spells_date_unpadded() {
    let d = Date { year: 2026, month: 1, day: 12 };
    assert_eq!(dir_path_string(&d), "2026/1/12");
    let d2 = Date { year: 2026, month: 10, day: 3 };
    assert_eq!(dir_path_string(&d2), "2026/10/3");
}

#[test]
fn filename_carries_timestamp() {
    assert_eq!(filename_for_upload("recording.webm", 1760227200), "recording_1760227200.webm");
    assert_eq!(filename_for_upload("", 1), "recording_1.webm");
}

#[test]
fn filename_keeps_test_prefix() {
    assert_eq!(filename_for_upload("test_clip.webm", 7), "test_recording_7.webm");
    assert_eq!(filename_for_upload("latest_clip.webm", 7), "recording_7.webm");
}

#[test]
fn file_path_joins_directory_and_name() {
    let d = Date { year: 2026, month: 1, day: 12 };
    assert_eq!(file_path_string(&d, "recording_1.webm"), "2026/1/12/recording_1.webm");
}

#[test]
fn confinement_accepts_served_paths() {
    assert!(path_is_confined("/files/2026/1/12/recording_1.webm"));
    assert!(path_is_confined("/files/a.webm"));
}

#[test]
fn confinement_rejects_parent_segments() {
    assert!(!path_is_confined("/files/../secret"));
    assert!(!path_is_confined("/files/2026/../x"));
    assert!(!path_is_confined("/files/a/b/../../etc/passwd"));
    assert!(!path_is_confined("/files/.."));
}

#[test]
fn confinement_rejects_missing_prefix() {
    assert!(!path_is_confined("2026/1/12/recording_1.webm"));
    assert!(!path_is_confined("/file/2026/x.webm"));
    assert!(!path_is_confined(""));
    assert!(!path_is_confined("/files"));
}

#[test]
fn timestamp_reads_back_from_generated_names() {
    assert_eq!(timestamp_in_filename("recording_1760227200.webm"), Some(1760227200));
    assert_eq!(timestamp_in_filename("test_recording_7.webm"), Some(7));
    assert_eq!(timestamp_in_filename(&filename_for_upload("clip.webm", 12345)), Some(12345));
    assert_eq!(timestamp_in_filename(&filename_for_upload("test_clip.webm", 0)), Some(0));
}

#[test]
fn timestamp_absent_from_other_names() {
    assert_eq!(timestamp_in_filename("recording.webm"), None);
    assert_eq!(timestamp_in_filename("recording_.webm"), None);
    assert_eq!(timestamp_in_filename("recording_12a3.webm"), None);
    assert_eq!(timestamp_in_filename("recording_99"), None);
    assert_eq!(timestamp_in_filename("recording_99999999999999999999.webm"), None);
}

#[test]
fn strip_prefix_leaves_relative_path() {
    assert_eq!(strip_files_prefix("/files/2026/1/12/recording_1.webm"), "2026/1/12/recording_1.webm");
    assert_eq!(strip_files_prefix("/files/"), "");
}
