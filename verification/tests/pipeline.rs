use audio_workflow::{Date, DeleteError, ListError, Now, Pipeline, Status, TaskGroup,
    Transcription};
use audio_workflow::records::{display_title, display_transcript, Recording, Stamp};

fn clock(year: u32, month: u32, day: u32, secs: u32, unix_ts: u64) -> Now {
    Now { date: Date { year, month, day }, secs, unix_ts }
}

#[test]
fn ingest_creates_pending_record_and_file() {
    let mut p = Pipeline::new();
    let now = clock(2026, 10, 12, 3600, 1760227200);
    let id = p.ingest(b"Test Data".to_vec(), None, "recording.webm", now);
    assert_eq!(id, 0);

    let rows = p.list_on(None, now.date).unwrap();
    assert_eq!(rows.len(), 1);
    assert_eq!(rows[0].id, 0);
    assert_eq!(rows[0].status, "PENDING");
    assert_eq!(rows[0].name, "recording_1760227200.webm");
    assert_eq!(rows[0].path, "/files/2026/10/12/recording_1760227200.webm");
    assert!(rows[0].transcription.is_none());
    assert!(rows[0].group_id.is_none());

    let bytes = p.file_bytes("2026/10/12/recording_1760227200.webm").unwrap();
    assert_eq!(bytes.len(), 9);
    assert_eq!(bytes, b"Test Data".to_vec());
}

#[test]
fn ingest_accepts_empty_payload() {
    let mut p = Pipeline::new();
    let now = clock(2026, 10, 12, 10, 5);
    p.ingest(Vec::new(), None, "recording.webm", now);
    let bytes = p.file_bytes("2026/10/12/recording_5.webm").unwrap();
    assert_eq!(bytes.len(), 0);
    assert_eq!(p.list_on(None, now.date).unwrap().len(), 1);
}

#[test]
fn upload_scenario_completes_transcription() {
    let mut p = Pipeline::new();
    let now = clock(2026, 10, 12, 3600, 1760227200);
    let id = p.ingest(b"Test Data".to_vec(), None, "recording.webm", now);

    let ok = p.complete_from_text(id, "{\"title\":\"T\",\"transcript\":\"Test Data\"}");
    assert!(ok);

    let rows = p.list_on(None, now.date).unwrap();
    assert_eq!(rows.len(), 1);
    assert_eq!(rows[0].status, "COMPLETED");
    let t = rows[0].transcription.as_ref().unwrap();
    assert_eq!(t.title.as_deref(), Some("T"));
    assert_eq!(t.transcript.as_deref(), Some("Test Data"));
}

#[test]
fn failed_transcription_leaves_record_pending() {
    let mut p = Pipeline::new();
    let now = clock(2026, 10, 12, 3600, 77);
    let id = p.ingest(b"x".to_vec(), None, "recording.webm", now);

    let ok = p.complete_from_text(id, "this is not json");
    assert!(!ok);

    let rows = p.list_on(None, now.date).unwrap();
    assert_eq!(rows[0].status, "PENDING");
    assert!(rows[0].transcription.is_none());
}

#[test]
fn date_override_partitions_by_that_date() {
    let mut p = Pipeline::new();
    let now = clock(2026, 10, 12, 3600, 42);
    p.ingest(b"abc".to_vec(), Some("2026-01-12"), "recording.webm", now);

    assert!(p.has_file("2026/1/12/recording_42.webm"));
    assert!(!p.has_file("2026/10/12/recording_42.webm"));

    let on_override = p.list_on(Some("2026-01-12"), now.date).unwrap();
    assert_eq!(on_override.len(), 1);
    assert_eq!(on_override[0].path, "/files/2026/1/12/recording_42.webm");

    let today = p.list_on(None, now.date).unwrap();
    assert!(today.is_empty());
}

#[test]
fn unparsable_override_falls_back_to_today() {
    let mut p = Pipeline::new();
    let now = clock(2026, 10, 12, 3600, 9);
    p.ingest(b"abc".to_vec(), Some("not-a-date"), "recording.webm", now);
    assert!(p.has_file("2026/10/12/recording_9.webm"));
    assert_eq!(p.list_on(None, now.date).unwrap().len(), 1);
}

#[test]
fn unparsable_list_date_is_client_error() {
    let p = Pipeline::new();
    let r = p.list_on(Some("2026-1-12"), Date { year: 2026, month: 10, day: 12 });
    assert_eq!(r.unwrap_err(), ListError::InvalidDate);
}

#[test]
fn list_orders_newest_first() {
    let mut p = Pipeline::new();
    let d = Date { year: 2026, month: 10, day: 12 };
    p.ingest(b"a".to_vec(), None, "recording.webm", Now { date: d, secs: 100, unix_ts: 100 });
    p.ingest(b"b".to_vec(), None, "recording.webm", Now { date: d, secs: 300, unix_ts: 300 });
    p.ingest(b"c".to_vec(), None, "recording.webm", Now { date: d, secs: 200, unix_ts: 200 });

    let rows = p.list_on(None, d).unwrap();
    assert_eq!(rows.len(), 3);
    assert_eq!(rows[0].name, "recording_300.webm");
    assert_eq!(rows[1].name, "recording_200.webm");
    assert_eq!(rows[2].name, "recording_100.webm");
}

#[test]
fn override_uploads_are_recorded_at_noon() {
    let mut p = Pipeline::new();
    let d = Date { year: 2026, month: 1, day: 12 };
    p.ingest(b"a".to_vec(), None, "recording.webm", Now { date: d, secs: 50000, unix_ts: 1000 });
    p.ingest(
        b"b".to_vec(),
        Some("2026-01-12"),
        "recording.webm",
        clock(2026, 10, 12, 3600, 2000),
    );

    let rows = p.list_on(Some("2026-01-12"), d).unwrap();
    assert_eq!(rows.len(), 2);
    assert_eq!(rows[0].name, "recording_1000.webm");
    assert_eq!(rows[1].name, "recording_2000.webm");
}

#[test]
fn list_is_idempotent_without_writes() {
    let mut p = Pipeline::new();
    let d = Date { year: 2026, month: 10, day: 12 };
    p.ingest(b"a".to_vec(), None, "recording.webm", Now { date: d, secs: 1, unix_ts: 1 });
    p.ingest(b"b".to_vec(), None, "recording.webm", Now { date: d, secs: 2, unix_ts: 2 });

    let first = p.list_on(None, d).unwrap();
    let second = p.list_on(None, d).unwrap();
    assert_eq!(first.len(), second.len());
    for (a, b) in first.iter().zip(second.iter()) {
        assert_eq!(a.id, b.id);
        assert_eq!(a.path, b.path);
        assert_eq!(a.name, b.name);
        assert_eq!(a.status, b.status);
        assert_eq!(a.group_id, b.group_id);
    }
}

#[test]
fn delete_by_path_scenario() {
    let mut p = Pipeline::new();
    let now = clock(2026, 1, 12, 3600, 1);
    p.ingest(b"abc".to_vec(), Some("2026-01-12"), "recording.webm", now);
    assert!(p.has_file("2026/1/12/recording_1.webm"));

    let r = p.delete_by_path("/files/2026/1/12/recording_1.webm");
    assert!(r.is_ok());

    let rows = p.list_on(Some("2026-01-12"), now.date).unwrap();
    assert!(rows.is_empty());
    assert!(!p.has_file("2026/1/12/recording_1.webm"));
}

#[test]
fn delete_missing_path_reports_not_found_and_mutates_nothing() {
    let mut p = Pipeline::new();
    let now = clock(2026, 1, 12, 3600, 1);
    p.ingest(b"abc".to_vec(), None, "recording.webm", now);

    let r = p.delete_by_path("/files/2026/1/12/recording_2.webm");
    assert_eq!(r.unwrap_err(), DeleteError::NotFound);
    assert_eq!(p.list_on(None, now.date).unwrap().len(), 1);
    assert!(p.has_file("2026/1/12/recording_1.webm"));
}

#[test]
fn delete_unconfined_path_is_rejected() {
    let mut p = Pipeline::new();
    let now = clock(2026, 1, 12, 3600, 1);
    p.ingest(b"abc".to_vec(), None, "recording.webm", now);

    assert_eq!(
        p.delete_by_path("/files/../2026/1/12/recording_1.webm").unwrap_err(),
        DeleteError::NotConfined
    );
    assert_eq!(
        p.delete_by_path("2026/1/12/recording_1.webm").unwrap_err(),
        DeleteError::NotConfined
    );
    assert_eq!(p.list_on(None, now.date).unwrap().len(), 1);
}

#[test]
fn delete_by_id_removes_row_and_file() {
    let mut p = Pipeline::new();
    let now = clock(2026, 10, 12, 3600, 8);
    let id = p.ingest(b"abc".to_vec(), None, "recording.webm", now);

    assert!(p.delete_by_id(id));
    assert!(p.list_on(None, now.date).unwrap().is_empty());
    assert!(!p.has_file("2026/10/12/recording_8.webm"));

    assert!(!p.delete_by_id(id));
}

#[test]
fn completion_is_monotonic() {
    let mut p = Pipeline::new();
    let now = clock(2026, 10, 12, 3600, 4);
    let id = p.ingest(b"abc".to_vec(), None, "recording.webm", now);

    assert!(p.complete_from_text(id, "{\"title\":\"first\",\"transcript\":\"a\"}"));
    assert!(p.complete_from_text(id, "{\"title\":\"second\",\"transcript\":\"b\"}"));

    let rows = p.list_on(None, now.date).unwrap();
    assert_eq!(rows[0].status, "COMPLETED");
    let t = rows[0].transcription.as_ref().unwrap();
    assert_eq!(t.title.as_deref(), Some("first"));
}

#[test]
fn completing_deleted_record_is_harmless() {
    let mut p = Pipeline::new();
    let now = clock(2026, 10, 12, 3600, 4);
    let id = p.ingest(b"abc".to_vec(), None, "recording.webm", now);
    assert!(p.delete_by_id(id));

    let ok = p.complete_from_text(id, "{\"title\":\"T\",\"transcript\":\"x\"}");
    assert!(ok);
    assert!(p.list_on(None, now.date).unwrap().is_empty());
}

#[test]
fn update_group_sets_and_clears() {
    let mut p = Pipeline::new();
    let now = clock(2026, 10, 12, 3600, 4);
    let id = p.ingest(b"abc".to_vec(), None, "recording.webm", now);

    p.update_group(id, Some(7));
    assert_eq!(p.list_on(None, now.date).unwrap()[0].group_id, Some(7));

    p.update_group(id, None);
    assert_eq!(p.list_on(None, now.date).unwrap()[0].group_id, None);

    p.update_group(999, Some(3));
    assert_eq!(p.list_on(None, now.date).unwrap()[0].group_id, None);
}

#[test]
fn groups_list_in_display_order() {
    let mut p = Pipeline::new();
    p.add_group(TaskGroup { id: 1, name: "b".to_string(), description: None, ordering: 2 });
    p.add_group(TaskGroup { id: 2, name: "a".to_string(), description: None, ordering: 1 });
    p.add_group(TaskGroup {
        id: 3,
        name: "a2".to_string(),
        description: Some("also first".to_string()),
        ordering: 1,
    });

    let groups = p.list_groups();
    assert_eq!(groups.len(), 3);
    assert_eq!(groups[0].id, 2);
    assert_eq!(groups[1].id, 3);
    assert_eq!(groups[2].id, 1);
}

#[test]
fn timestamp_collision_overwrites_file_and_keeps_rows() {
    let mut p = Pipeline::new();
    let now = clock(2026, 10, 12, 3600, 5);
    p.ingest(b"one".to_vec(), None, "recording.webm", now);
    p.ingest(b"two".to_vec(), None, "recording.webm", now);

    assert_eq!(p.list_on(None, now.date).unwrap().len(), 2);
    assert_eq!(p.file_bytes("2026/10/12/recording_5.webm").unwrap(), b"two".to_vec());

    assert!(p.delete_by_path("/files/2026/10/12/recording_5.webm").is_ok());
    assert!(p.list_on(None, now.date).unwrap().is_empty());
}

#[test]
fn display_fallbacks_use_filename_and_empty_transcript() {
    let rec = Recording {
        id: 1,
        filename: "recording_9.webm".to_string(),
        file_path: "2026/10/12/recording_9.webm".to_string(),
        created_at: Stamp { date: Date { year: 2026, month: 10, day: 12 }, secs: 0 },
        status: Status::Pending,
        transcription: None,
        group_id: None,
    };
    assert_eq!(display_title(&rec), "recording_9.webm");
    assert_eq!(display_transcript(&rec), "");

    let done = Recording {
        status: Status::Completed,
        transcription: Some(Transcription { title: None, transcript: Some("words".to_string()) }),
        ..rec
    };
    assert_eq!(display_title(&done), "recording_9.webm");
    assert_eq!(display_transcript(&done), "words");
}
