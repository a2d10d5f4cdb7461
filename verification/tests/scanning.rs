use lyra::config::{Backend, Config};
use lyra::scanner::{
    key_extension, should_import, FileTable, ScanEntry, ScanProgress, MIN_FILE_SIZE,
};

fn entry(key: &str, size_bytes: u64) -> ScanEntry {
    ScanEntry { key: key.to_string(), size_bytes }
}

fn backend() -> String {
    "movies".to_string()
}

#[test]
fn small_files_are_ignored() {
    assert!(!should_import("The.Matrix.1999.1080p.mkv", MIN_FILE_SIZE - 1));
    assert!(should_import("The.Matrix.1999.1080p.mkv", MIN_FILE_SIZE));

    let mut t = FileTable::new();
    t.scan_pass(&backend(), 100, &vec![entry("small.mkv", 10 * 1024 * 1024)]);
    assert_eq!(t.rows.len(), 0);
}

#[test]
fn extensions_are_matched_case_insensitively() {
    assert_eq!(key_extension("a/b/movie.MKV"), Some("MKV".to_string()));
    assert_eq!(key_extension(".hidden"), None);
    assert_eq!(key_extension("noext"), None);
    assert_eq!(key_extension("dir.v/file"), None);
    assert!(should_import("x.Mkv", MIN_FILE_SIZE));
    assert!(should_import("x.m2ts", MIN_FILE_SIZE));
    assert!(should_import("x.TS", MIN_FILE_SIZE));
    assert!(!should_import("x.txt", MIN_FILE_SIZE));
    assert!(!should_import("x", MIN_FILE_SIZE));
}

#[test]
fn first_sighting_inserts_a_pending_row() {
    let mut t = FileTable::new();
    t.scan_pass(&backend(), 100, &vec![entry("The.Matrix.1999.1080p.mkv", 500 * 1024 * 1024)]);
    assert_eq!(t.rows.len(), 1);
    assert_eq!(t.rows[0].key, "The.Matrix.1999.1080p.mkv");
    assert_eq!(t.rows[0].backend_name, "movies");
    assert!(t.rows[0].pending_auto_match);
    assert_eq!(t.rows[0].unavailable_since, None);
    assert_eq!(t.rows[0].size_bytes, Some(500 * 1024 * 1024));
    assert_eq!(t.rows[0].scanned_at, 100);
}

#[test]
fn rename_appears_as_new_row_and_old_row_goes_unavailable() {
    let mut t = FileTable::new();
    t.scan_pass(&backend(), 100, &vec![entry("old-name.mkv", 200 * 1024 * 1024)]);
    t.scan_pass(&backend(), 200, &vec![entry("new-name.mkv", 200 * 1024 * 1024)]);
    assert_eq!(t.rows.len(), 2);
    let old = t.rows.iter().find(|r| r.key == "old-name.mkv").unwrap();
    let new = t.rows.iter().find(|r| r.key == "new-name.mkv").unwrap();
    assert_eq!(old.unavailable_since, Some(200));
    assert_eq!(new.unavailable_since, None);
    assert!(new.pending_auto_match);
}

#[test]
fn rescan_of_unchanged_content_changes_nothing() {
    let entries = vec![
        entry("a.mkv", 200 * 1024 * 1024),
        entry("shows/b.mp4", 300 * 1024 * 1024),
    ];
    let mut t = FileTable::new();
    t.scan_pass(&backend(), 100, &entries);
    t.clear_pending(t.rows[0].id);
    let before: Vec<_> = t
        .rows
        .iter()
        .map(|r| {
            (
                r.id,
                r.backend_name.clone(),
                r.key.clone(),
                r.pending_auto_match,
                r.unavailable_since,
                r.size_bytes,
            )
        })
        .collect();
    let next_before = t.next_id;
    t.scan_pass(&backend(), 200, &entries);
    let after: Vec<_> = t
        .rows
        .iter()
        .map(|r| {
            (
                r.id,
                r.backend_name.clone(),
                r.key.clone(),
                r.pending_auto_match,
                r.unavailable_since,
                r.size_bytes,
            )
        })
        .collect();
    assert_eq!(before, after);
    assert_eq!(next_before, t.next_id);
    // sighting times did move to the new pass
    assert!(t.rows.iter().all(|r| r.scanned_at == 200));
}

#[test]
fn rediscovered_file_is_available_again() {
    let mut t = FileTable::new();
    t.scan_pass(&backend(), 100, &vec![entry("a.mkv", 200 * 1024 * 1024)]);
    t.scan_pass(&backend(), 200, &Vec::new());
    assert_eq!(t.rows[0].unavailable_since, Some(200));
    t.scan_pass(&backend(), 300, &vec![entry("a.mkv", 200 * 1024 * 1024)]);
    assert_eq!(t.rows[0].unavailable_since, None);
    assert_eq!(t.rows.len(), 1);
}

#[test]
fn progress_logs_every_five_seconds() {
    let mut p = ScanProgress::new(1000);
    assert!(!p.should_log(1000));
    assert!(!p.should_log(5999));
    assert!(p.should_log(6000));
    assert_eq!(p.last_log_time_ms, 6000);
    assert!(!p.should_log(10_999));
    assert!(p.should_log(11_000));
}

#[test]
fn converter_binaries_live_under_the_data_dir() {
    let config = Config {
        data_dir: "/var/lib/lyra".to_string(),
        transcode_cache_dir: None,
        image_dir: Some("/tmp/images".to_string()),
        ffmpeg_dir: None,
        backends: vec![Backend { name: "movies".to_string(), root_dir: "/media".to_string() }],
        tmdb_api_key: "testkey".to_string(),
        host: "127.0.0.1".to_string(),
        port: 8000,
    };
    assert_eq!(config.get_transcode_cache_dir(), "/var/lib/lyra/transcode_cache");
    assert_eq!(config.get_image_dir(), "/tmp/images");
    assert_eq!(config.get_ffmpeg_dir(), "/var/lib/lyra/ffmpeg_cache");
    let ff = config.default_ffmpeg_config();
    assert_eq!(ff.get_ffmpeg_path(), "/var/lib/lyra/ffmpeg_cache/ffmpeg");
    assert_eq!(ff.get_ffprobe_path(), "/var/lib/lyra/ffmpeg_cache/ffprobe");
    assert!(config.get_backend_by_name("movies").is_some());
    assert!(config.get_backend_by_name("shows").is_none());
}

#[test]
fn matcher_queue_is_oldest_first() {
    let mut t = FileTable::new();
    t.scan_pass(
        &backend(),
        100,
        &vec![entry("a.mkv", 200 * 1024 * 1024), entry("b.mkv", 200 * 1024 * 1024)],
    );
    assert_eq!(t.next_pending(), Some(1));
    t.clear_pending(1);
    assert_eq!(t.next_pending(), Some(2));
    t.clear_pending(2);
    assert_eq!(t.next_pending(), None);
}
