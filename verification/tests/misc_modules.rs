use anime_player::crash_log::{format_timestamp, log_line, log_needs_rotation, unix_days_to_ymd};
use anime_player::library_ops::{LibraryOperationStatus, LibraryOperationType};
use anime_player::media::{
    cover_mime_type, data_url, data_url_from_encoded, normalize_path_for_match,
    normalized_video_path_key, scrub_sprite_identity_for, tally_sprite_removals,
};
use anime_player::scanner::{
    clean_title, is_video_file, should_track_path, title_key as scanner_title_key,
    video_extension_list,
};
use anime_player::text_set::{insert_path, remove_path};
use anime_player::watcher::{EventClass, PendingPaths};

#[test]
fn civil_dates() {
    assert_eq!(unix_days_to_ymd(0), (1970, 1, 1));
    assert_eq!(unix_days_to_ymd(11_016), (2000, 2, 29));
    assert_eq!(unix_days_to_ymd(11_017), (2000, 3, 1));
    assert_eq!(unix_days_to_ymd(19_357), (2022, 12, 31));
}

#[test]
fn timestamps() {
    assert_eq!(format_timestamp(0, 0), "1970-01-01T00:00:00.000Z");
    assert_eq!(format_timestamp(951_782_400 + 3_723, 45), "2000-02-29T01:02:03.045Z");
}

#[test]
fn log_lines_and_rotation() {
    assert_eq!(log_line("T", "INFO", "hello"), "[T] [INFO] hello\n");
    assert!(!log_needs_rotation(1_048_576));
    assert!(log_needs_rotation(1_048_577));
}

#[test]
fn library_operation_names() {
    for t in [
        LibraryOperationType::DeleteAnime,
        LibraryOperationType::DeleteEpisode,
        LibraryOperationType::CleanLocalData,
        LibraryOperationType::RescanLibrary,
        LibraryOperationType::LocalDataStats,
    ] {
        assert!(LibraryOperationType::parse(t.as_str()) == Some(t));
    }
    assert!(LibraryOperationType::parse("nope").is_none());
    assert!(LibraryOperationStatus::parse("canceled") == LibraryOperationStatus::Canceled);
    assert!(LibraryOperationStatus::parse("weird") == LibraryOperationStatus::Failed);
}

#[test]
fn media_keys_and_urls() {
    assert_eq!(normalized_video_path_key(r"D:\Anime\EP01.MKV"), "d:/anime/ep01.mkv");
    assert_eq!(normalize_path_for_match(r"D:\A"), "d:/a");
    assert_eq!(scrub_sprite_identity_for("D:/Anime/X.mkv"), "scrub_sprite:d:/anime/x.mkv");
    assert_eq!(data_url("image/jpeg", b"abc"), "data:image/jpeg;base64,YWJj");
    assert_eq!(data_url("image/png", b"ab"), "data:image/png;base64,YWI=");
    assert_eq!(data_url("image/bmp", b""), "data:image/bmp;base64,");
    assert_eq!(data_url("x/y", &[0xfb, 0xff]), "data:x/y;base64,+/8=");
    assert_eq!(data_url("x/y", b"Many"), "data:x/y;base64,TWFueQ==");
    assert_eq!(data_url_from_encoded("text/plain", "eA=="), "data:text/plain;base64,eA==");
    assert_eq!(cover_mime_type(r"C:\covers\1.PNG"), "image/png");
    assert_eq!(cover_mime_type("c/1.webp"), "image/webp");
    assert_eq!(cover_mime_type("c/1.jpg"), "image/jpeg");
    assert_eq!(cover_mime_type("c/.png"), "image/jpeg");
}

#[test]
fn video_files() {
    assert_eq!(video_extension_list().len(), 19);
    assert!(is_video_file(r"D:\a\b.MKV"));
    assert!(is_video_file("x.m2ts"));
    assert!(!is_video_file("x.srt"));
    assert!(!is_video_file(".mkv"));
    assert!(should_track_path("movie.mkv.part"));
    assert!(should_track_path(r"D:\dl\Movie.MP4.tmp"));
    assert!(should_track_path("a.mkv.crdownload"));
    assert!(!should_track_path("notes.txt"));
}

#[test]
fn titles() {
    assert_eq!(scanner_title_key("  Sousou  no   Frieren "), "sousou no frieren");
    assert_eq!(clean_title("_Sousou__no_Frieren_ "), "Sousou no Frieren");
}

#[test]
fn text_sets() {
    let v = vec!["a".to_string(), "b".to_string()];
    let w = insert_path(&v, "c");
    assert_eq!(w.len(), 3);
    let w = insert_path(&w, "a");
    assert_eq!(w.len(), 3);
    let w = insert_path(&w, "a/");
    assert_eq!(w, vec!["a".to_string(), "b".to_string(), "c".to_string()]);
    let w = remove_path(&w, "b");
    assert_eq!(w.len(), 2);
    assert!(!w.contains(&"b".to_string()));
}

#[test]
fn pending_paths() {
    let mut p = PendingPaths::new();
    assert!(p.is_empty());
    p.mark_changed("a.mkv");
    p.mark_removed("b.mkv");
    assert!(!p.is_empty());
    p.mark_removed("a.mkv");
    p.mark_changed("b.mkv");
    let taken = p.take();
    assert_eq!(taken, vec!["b.mkv".to_string()]);
    assert!(p.is_empty());
}

#[test]
fn watcher_events() {
    let mut p = PendingPaths::new();
    let paths = vec!["x.mkv".to_string(), "y.mkv".to_string()];
    p.apply_event(EventClass::Access, &paths, &[true, true]);
    assert!(p.is_empty());
    p.apply_event(EventClass::Other, &paths, &[true, false]);
    let taken = p.take();
    assert_eq!(taken, vec!["x.mkv".to_string()]);
    p.apply_event(EventClass::Remove, &paths, &[true, true]);
    assert!(!p.is_empty());
    assert!(p.take().is_empty());
    p.apply_event(EventClass::Change, &paths, &[false, false]);
    let mut t = p.take();
    t.sort();
    assert_eq!(t, paths);
    p.mark_changed("z");
    p.clear();
    assert!(p.is_empty());
}

use anime_player::watcher::{record_sizes, settle_finished, should_flush};

#[test]
fn untracked_paths_are_ignored() {
    let mut p = PendingPaths::new();
    let paths = vec!["notes.txt".to_string(), "clip.mkv.part".to_string()];
    p.apply_event(EventClass::Change, &paths, &[true, true]);
    assert_eq!(p.take(), vec!["clip.mkv.part".to_string()]);
    p.apply_event(EventClass::Remove, &vec!["notes.txt".to_string()], &[false]);
    assert!(p.is_empty());
}

#[test]
fn flush_and_settle_decisions() {
    assert!(should_flush(5_000, Some(3_000), true, false));
    assert!(!should_flush(4_999, Some(3_000), true, false));
    assert!(!should_flush(5_000, None, true, false));
    assert!(!should_flush(5_000, Some(3_000), false, false));
    assert!(!should_flush(5_000, Some(3_000), true, true));
    assert!(!should_flush(1_000, Some(3_000), true, false));
    let mut last = vec![10u64, 20, 30];
    assert!(!record_sizes(&mut last, &[Some(10), None, Some(30)]));
    assert!(record_sizes(&mut last, &[Some(11), None, Some(30)]));
    assert_eq!(last, vec![11, 20, 30]);
    assert!(settle_finished(60_000, 0, true));
    assert!(settle_finished(1_000, 1_500, false));
    assert!(!settle_finished(1_000, 1_500, true));
    assert!(!settle_finished(1_000, 1_499, false));
}

#[test]
fn pending_paths_compare_by_components() {
    let mut p = PendingPaths::new();
    p.mark_changed(r"C:\anime\a.mkv");
    p.mark_changed("C:/anime/a.mkv");
    p.mark_changed(r"C:\anime\\a.mkv\");
    assert_eq!(p.take(), vec![r"C:\anime\a.mkv".to_string()]);
    p.mark_changed("D:/x/b.mkv");
    p.mark_removed(r"D:\x\b.mkv");
    assert!(p.take().is_empty());
    assert!(p.is_empty());
}

#[test]
fn pending_paths_come_out_in_arrival_order() {
    let mut p = PendingPaths::new();
    p.mark_changed("show/01.mkv");
    p.mark_changed("show/02.mkv");
    p.mark_changed("show/03.mkv");
    p.mark_removed("show//02.mkv");
    p.mark_changed("show/01.mkv/");
    assert_eq!(
        p.take(),
        vec!["show/01.mkv".to_string(), "show/03.mkv".to_string()]
    );
}

#[test]
fn sprite_removal_totals() {
    assert_eq!(tally_sprite_removals(&[]), (0, 0));
    assert_eq!(tally_sprite_removals(&[0, 4096, 0, 100]), (2, 4196));
    assert_eq!(tally_sprite_removals(&[u64::MAX]), (1, u64::MAX));
}

#[test]
fn pending_paths_ignore_dot_components() {
    let mut p = PendingPaths::new();
    p.mark_changed("show/./01.mkv");
    p.mark_changed("show/01.mkv");
    assert_eq!(p.take(), vec!["show/./01.mkv".to_string()]);
}
