use fidruawatch::config::AppConfig;
use fidruawatch::filter::{accept_path, filter_event, EventKind, PathSeen};

fn mp4_only() -> AppConfig {
    let mut c = AppConfig::default();
    c.file_types = vec![".mp4".to_string()];
    c
}

#[test]
fn accepts_allowed_extension() {
    let c = mp4_only();
    let r = accept_path(&c, "/f/file1.mp4", false);
    let a = r.expect("qualifying path must be accepted");
    assert_eq!(a.folder, "/f");
    assert_eq!(a.file_name, "file1.mp4");
}

#[test]
fn rejects_unlisted_extension() {
    // Scenario: a text file arrives in an mp4-only configuration.
    let c = mp4_only();
    assert!(accept_path(&c, "/f/readme.txt", false).is_none());
}

#[test]
fn rejects_ignored_folder_segment() {
    // Scenario: an allowed file under node_modules is discarded.
    let c = mp4_only();
    assert!(c.ignore_folders.iter().any(|s| s == "node_modules"));
    assert!(accept_path(&c, "/project/node_modules/clip.mp4", false).is_none());
}

#[test]
fn uppercase_extension_is_lowercased_before_the_allow_list() {
    let c = mp4_only();
    let a = accept_path(&c, "/f/MOVIE.MP4", false);
    assert!(a.is_some(), "extension matching must be case-insensitive");
    assert_eq!(a.unwrap().file_name, "MOVIE.MP4");
}

#[test]
fn empty_allow_list_accepts_everything() {
    let mut c = AppConfig::default();
    c.file_types = Vec::new();
    assert!(accept_path(&c, "/f/anything.xyz", false).is_some());
}

#[test]
fn rejects_directories() {
    let c = mp4_only();
    assert!(accept_path(&c, "/f/folder.mp4", true).is_none());
}

#[test]
fn rejects_path_without_extension() {
    let mut c = AppConfig::default();
    c.file_types = Vec::new();
    assert!(accept_path(&c, "/f/README", false).is_none());
    assert!(accept_path(&c, "/f/.gitignore", false).is_none());
}

#[test]
fn rejects_path_without_parent() {
    let c = mp4_only();
    assert!(accept_path(&c, "file1.mp4", false).is_none());
}

#[test]
fn root_level_file_gets_the_root_as_folder() {
    let c = mp4_only();
    let a = accept_path(&c, "/clip.mp4", false).unwrap();
    assert_eq!(a.folder, "/");
}

#[test]
fn backslash_convention_is_matched_too() {
    let c = mp4_only();
    assert!(accept_path(&c, "C:\\p\\node_modules\\clip.mp4", false).is_none());
}

#[test]
fn ignore_match_is_a_raw_substring_test() {
    // Known edge kept from the observed behavior: the segment test is a
    // plain substring match, so "vendor" also hits "/vendor/".
    let c = mp4_only();
    assert!(accept_path(&c, "/a/vendor/clip.mp4", false).is_none());
}

#[test]
fn irrelevant_kinds_yield_nothing() {
    let c = mp4_only();
    let paths = vec![PathSeen { path: "/f/file1.mp4".to_string(), is_dir: false }];
    let r = filter_event(&c, &EventKind::Other, &paths);
    assert!(r.is_empty());
}

#[test]
fn filter_event_keeps_accepted_paths_in_order() {
    let c = mp4_only();
    let paths = vec![
        PathSeen { path: "/f/a.mp4".to_string(), is_dir: false },
        PathSeen { path: "/f/skip.txt".to_string(), is_dir: false },
        PathSeen { path: "/g/b.mp4".to_string(), is_dir: false },
    ];
    let r = filter_event(&c, &EventKind::Create, &paths);
    assert_eq!(r.len(), 2);
    assert_eq!(r[0].folder, "/f");
    assert_eq!(r[0].file_name, "a.mp4");
    assert_eq!(r[1].folder, "/g");
    assert_eq!(r[1].file_name, "b.mp4");
}

#[test]
fn modify_events_qualify_like_creations() {
    let c = mp4_only();
    let paths = vec![PathSeen { path: "/f/a.mp4".to_string(), is_dir: false }];
    assert_eq!(filter_event(&c, &EventKind::Modify, &paths).len(), 1);
}

#[test]
fn default_config_lists_common_video_types() {
    let c = AppConfig::default();
    assert_eq!(c.file_types.len(), 12);
    assert!(c.file_types.iter().any(|s| s == ".mp4"));
    assert_eq!(c.ignore_folders.len(), 6);
    assert!(c.watch_folder.is_empty());
    assert!(c.watch_subdirs && c.sound_enabled && c.save_history);
}
