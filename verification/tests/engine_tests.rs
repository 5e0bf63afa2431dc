use fidruawatch::batch::{Batch, BatchStatus, MAX_BATCHES, UPLOAD_COMPLETE_TIMEOUT};
use fidruawatch::engine::{
    can_start, clear_all_batches, clear_batches, complete_folder_at, completion_due, get_config,
    get_state, mark_started, mark_started_now, record_event, record_event_at, restore_batches,
    sign_all_batches_at, sign_batch_at, stop_monitor, GlobalState,
};

const TS: &str = "2024-05-01 10:00:00";

fn record(s: &mut GlobalState, folder: &str, file: &str, now: u64, id: &str) -> bool {
    record_event_at(
        s,
        &folder.to_string(),
        &file.to_string(),
        now,
        &TS.to_string(),
        id.to_string(),
    )
}

#[test]
fn first_event_creates_an_uploading_batch() {
    let mut s = GlobalState::default();
    let notify = record(&mut s, "/f", "file1.mp4", 0, "id-1");
    assert!(notify);
    assert_eq!(s.batches.len(), 1);
    assert_eq!(s.batches[0].id, "id-1");
    assert_eq!(s.batches[0].folder, "/f");
    assert_eq!(s.batches[0].files, vec!["file1.mp4".to_string()]);
    assert_eq!(s.batches[0].status, BatchStatus::Uploading);
    assert_eq!(s.batches[0].started_at, TS);
    assert_eq!(s.batches[0].completed_at, None);
    assert_eq!(s.batches[0].file_count, 1);
    assert_eq!(s.folder_trackers.len(), 1);
}

#[test]
fn duplicate_file_names_are_recorded_once() {
    // The batch's file set is the set of distinct names across the events,
    // in first-appearance order, whatever the duplicates.
    let mut s = GlobalState::default();
    record(&mut s, "/f", "a.mp4", 0, "id-1");
    record(&mut s, "/f", "b.mp4", 1, "id-2");
    record(&mut s, "/f", "a.mp4", 2, "id-3");
    record(&mut s, "/f", "c.mp4", 3, "id-4");
    assert_eq!(s.batches.len(), 1);
    assert_eq!(
        s.batches[0].files,
        vec!["a.mp4".to_string(), "b.mp4".to_string(), "c.mp4".to_string()]
    );
    assert_eq!(s.batches[0].file_count, 3);
}

#[test]
fn batch_started_is_reported_exactly_once() {
    let mut s = GlobalState::default();
    assert!(record(&mut s, "/f", "a.mp4", 0, "id-1"));
    assert!(!record(&mut s, "/f", "b.mp4", 1, "id-2"));
    assert!(!record(&mut s, "/f", "c.mp4", 2, "id-3"));
    // A different folder is a different batch with its own signal.
    assert!(record(&mut s, "/g", "d.mp4", 3, "id-4"));
}

#[test]
fn completion_waits_for_the_full_timeout() {
    let mut s = GlobalState::default();
    record(&mut s, "/f", "a.mp4", 5, "id-1");
    assert!(completion_due(&s, 5 + UPLOAD_COMPLETE_TIMEOUT - 1).is_empty());
    let due = completion_due(&s, 5 + UPLOAD_COMPLETE_TIMEOUT);
    assert_eq!(due, vec!["/f".to_string()]);
}

#[test]
fn activity_pushes_the_deadline_back() {
    let mut s = GlobalState::default();
    record(&mut s, "/f", "a.mp4", 0, "id-1");
    record(&mut s, "/f", "b.mp4", 20, "id-2");
    assert!(completion_due(&s, 30).is_empty());
    assert_eq!(completion_due(&s, 50).len(), 1);
}

#[test]
fn two_files_then_silence_complete_as_one_batch() {
    // Scenario: two files land in /f two seconds apart, then nothing.
    let mut s = GlobalState::default();
    record(&mut s, "/f", "file1.mp4", 0, "id-1");
    record(&mut s, "/f", "file2.mp4", 2, "id-2");
    let due = completion_due(&s, 2 + UPLOAD_COMPLETE_TIMEOUT);
    assert_eq!(due, vec!["/f".to_string()]);
    assert!(complete_folder_at(&mut s, &"/f".to_string(), &TS.to_string()));
    assert_eq!(s.batches.len(), 1);
    let b = &s.batches[0];
    assert_eq!(b.status, BatchStatus::Completed);
    assert_eq!(b.files, vec!["file1.mp4".to_string(), "file2.mp4".to_string()]);
    assert_eq!(b.file_count, 2);
    assert_eq!(b.completed_at, Some(TS.to_string()));
    assert!(s.folder_trackers.is_empty());
}

#[test]
fn completing_a_folder_without_a_tracker_changes_nothing() {
    let mut s = GlobalState::default();
    record(&mut s, "/f", "a.mp4", 0, "id-1");
    assert!(!complete_folder_at(&mut s, &"/g".to_string(), &TS.to_string()));
    assert_eq!(s.folder_trackers.len(), 1);
    assert_eq!(s.batches[0].status, BatchStatus::Uploading);
}

#[test]
fn sign_succeeds_once_then_fails() {
    // Scenario: sign a completed batch, then sign the same id again.
    let mut s = GlobalState::default();
    record(&mut s, "/f", "a.mp4", 0, "id-1");
    complete_folder_at(&mut s, &"/f".to_string(), &TS.to_string());
    let stamp = "2024-05-01 11:00:00".to_string();
    assert!(sign_batch_at(&mut s, &"id-1".to_string(), stamp.clone()));
    assert_eq!(s.batches[0].status, BatchStatus::Signed);
    assert_eq!(s.batches[0].signed_at, Some(stamp));
    assert!(!sign_batch_at(&mut s, &"id-1".to_string(), TS.to_string()));
    assert_eq!(s.batches[0].status, BatchStatus::Signed);
}

#[test]
fn signing_an_uploading_batch_fails_and_changes_nothing() {
    let mut s = GlobalState::default();
    record(&mut s, "/f", "a.mp4", 0, "id-1");
    assert!(!sign_batch_at(&mut s, &"id-1".to_string(), TS.to_string()));
    assert_eq!(s.batches[0].status, BatchStatus::Uploading);
    assert_eq!(s.batches[0].signed_at, None);
}

#[test]
fn signing_an_unknown_id_fails() {
    let mut s = GlobalState::default();
    assert!(!sign_batch_at(&mut s, &"missing".to_string(), TS.to_string()));
    assert!(s.batches.is_empty());
}

#[test]
fn sign_all_signs_only_completed_batches() {
    let mut s = GlobalState::default();
    record(&mut s, "/a", "a.mp4", 0, "id-a");
    record(&mut s, "/b", "b.mp4", 0, "id-b");
    record(&mut s, "/c", "c.mp4", 0, "id-c");
    complete_folder_at(&mut s, &"/a".to_string(), &TS.to_string());
    complete_folder_at(&mut s, &"/b".to_string(), &TS.to_string());
    let stamp = "2024-05-01 12:00:00".to_string();
    sign_all_batches_at(&mut s, &stamp);
    let by_id = |s: &GlobalState, id: &str| {
        s.batches.iter().position(|b| b.id == id).unwrap()
    };
    let ia = by_id(&s, "id-a");
    let ib = by_id(&s, "id-b");
    let ic = by_id(&s, "id-c");
    assert_eq!(s.batches[ia].status, BatchStatus::Signed);
    assert_eq!(s.batches[ia].signed_at, Some(stamp.clone()));
    assert_eq!(s.batches[ib].status, BatchStatus::Signed);
    assert_eq!(s.batches[ic].status, BatchStatus::Uploading);
    assert_eq!(s.batches[ic].signed_at, None);
}

#[test]
fn store_is_capped_and_evicts_the_oldest() {
    let mut s = GlobalState::default();
    for i in 0..(MAX_BATCHES + 1) {
        let folder = format!("/f{}", i);
        let id = format!("id-{}", i);
        record(&mut s, &folder, "a.mp4", i as u64, &id);
        assert!(s.batches.len() <= MAX_BATCHES);
    }
    assert_eq!(s.batches.len(), MAX_BATCHES);
    // Newest first; the very first batch has been evicted.
    assert_eq!(s.batches[0].id, format!("id-{}", MAX_BATCHES));
    assert!(s.batches.iter().all(|b| b.id != "id-0"));
    assert_eq!(s.batches[MAX_BATCHES - 1].id, "id-1");
}

#[test]
fn clear_removes_only_signed_batches() {
    let mut s = GlobalState::default();
    record(&mut s, "/a", "a.mp4", 0, "id-a");
    record(&mut s, "/b", "b.mp4", 0, "id-b");
    record(&mut s, "/c", "c.mp4", 0, "id-c");
    complete_folder_at(&mut s, &"/a".to_string(), &TS.to_string());
    complete_folder_at(&mut s, &"/b".to_string(), &TS.to_string());
    sign_batch_at(&mut s, &"id-a".to_string(), TS.to_string());
    clear_batches(&mut s);
    assert_eq!(s.batches.len(), 2);
    assert!(s.batches.iter().all(|b| b.status != BatchStatus::Signed));
    clear_all_batches(&mut s);
    assert!(s.batches.is_empty());
}

#[test]
fn stop_leaves_uploading_batches_as_they_were() {
    // Scenario: stop while a folder still has a live tracker with 3 files.
    let mut s = GlobalState::default();
    mark_started(&mut s, "10:00:00".to_string());
    record(&mut s, "/f", "a.mp4", 0, "id-1");
    record(&mut s, "/f", "b.mp4", 1, "id-2");
    record(&mut s, "/f", "c.mp4", 2, "id-3");
    assert_eq!(s.folder_trackers.len(), 1);
    assert!(stop_monitor(&mut s));
    assert!(s.folder_trackers.is_empty());
    assert_eq!(s.batches.len(), 1);
    assert_eq!(s.batches[0].status, BatchStatus::Uploading);
    assert_eq!(s.batches[0].file_count, 3);
}

#[test]
fn stop_when_idle_is_rejected() {
    let mut s = GlobalState::default();
    assert!(!stop_monitor(&mut s));
}

#[test]
fn start_needs_a_configured_folder_and_an_idle_engine() {
    let mut s = GlobalState::default();
    assert!(!can_start(&s));
    s.config.watch_folder = "/watched".to_string();
    assert!(can_start(&s));
    mark_started(&mut s, "10:00:00".to_string());
    assert!(s.is_running);
    assert_eq!(s.dir_count, 1);
    assert!(!can_start(&s));
}

#[test]
fn snapshot_counts_by_status() {
    let mut s = GlobalState::default();
    record(&mut s, "/a", "a.mp4", 0, "id-a");
    record(&mut s, "/b", "b.mp4", 0, "id-b");
    record(&mut s, "/c", "c.mp4", 0, "id-c");
    complete_folder_at(&mut s, &"/a".to_string(), &TS.to_string());
    complete_folder_at(&mut s, &"/b".to_string(), &TS.to_string());
    sign_batch_at(&mut s, &"id-a".to_string(), TS.to_string());
    let snap = get_state(&s);
    assert_eq!(snap.batches.len(), 3);
    assert_eq!(snap.unsigned_count, 1);
    assert_eq!(snap.uploading_count, 1);
    assert!(!snap.is_running);
}

#[test]
fn config_round_trips_through_the_engine() {
    let mut s = GlobalState::default();
    s.config.watch_folder = "/somewhere".to_string();
    let c = get_config(&s);
    assert_eq!(c.watch_folder, "/somewhere");
    assert_eq!(c.file_types, s.config.file_types);
}

#[test]
fn live_record_draws_a_hyphenated_id_and_a_stamp() {
    // Through the real id generator and clock: a fresh folder gets a
    // 36-character hyphenated id and a formatted start stamp.
    let mut s = GlobalState::default();
    let notify = record_event(&mut s, &"/f".to_string(), &"a.mp4".to_string());
    assert!(notify);
    assert_eq!(s.batches.len(), 1);
    assert_eq!(s.batches[0].id.len(), 36);
    assert_eq!(s.batches[0].id.matches('-').count(), 4);
    assert_eq!(s.batches[0].started_at.len(), 19);
    assert!(!record_event(&mut s, &"/f".to_string(), &"b.mp4".to_string()));
}

#[test]
fn restore_reestablishes_the_store_invariant() {
    // A saved history may be overlong, hold duplicated names and stale
    // counts; restoring caps it and re-derives both.
    let mut s = GlobalState::default();
    let mut loaded: Vec<Batch> = Vec::new();
    for i in 0..(MAX_BATCHES + 5) {
        loaded.push(Batch {
            id: format!("id-{}", i),
            folder: "/f".to_string(),
            files: vec!["a.mp4".to_string(), "b.mp4".to_string(), "a.mp4".to_string()],
            status: BatchStatus::Completed,
            started_at: TS.to_string(),
            completed_at: None,
            signed_at: None,
            file_count: 7,
        });
    }
    restore_batches(&mut s, loaded);
    assert_eq!(s.batches.len(), MAX_BATCHES);
    assert_eq!(s.batches[0].id, "id-0");
    assert_eq!(s.batches[0].files, vec!["a.mp4".to_string(), "b.mp4".to_string()]);
    assert_eq!(s.batches[0].file_count, 2);
    assert_eq!(s.batches[0].status, BatchStatus::Completed);
}

#[test]
fn session_start_stamp_is_a_time_of_day() {
    let mut s = GlobalState::default();
    s.config.watch_folder = "/w".to_string();
    mark_started_now(&mut s);
    assert!(s.is_running);
    assert_eq!(s.start_time.len(), 8);
    assert_eq!(s.start_time.matches(':').count(), 2);
}
