use anime_player::library::{
    anime_rename_decision,
    record_cover_removal, removes_whole_anime, tally_episode_removals, EpisodeRemoval,
    FileRemoval, compute_gap_episode_count, count_episodes_under_folder, matching_root_folder,
    normalize_anime_rename_title, pick_preferred_episode_folder, renamed_relative_path,
};
use anime_player::paths::paths_equal;

fn frieren_example_paths() -> Vec<String> {
    let mut paths = Vec::new();
    for i in 1..=8 {
        paths.push(format!(r"C:\anime\ongoing\frieren\watched\{i:02}.mkv"));
    }
    for i in 9..=10 {
        paths.push(format!(r"C:\anime\ongoing\frieren\{i:02}.mkv"));
    }
    for i in 1..=3 {
        paths.push(format!(r"V:\frieren-special\{i}.mkv"));
    }
    paths
}

#[test]
fn pick_preferred_episode_folder_prefers_most_episodes_recursively() {
    let picked = pick_preferred_episode_folder(&frieren_example_paths()).expect("folder");
    assert!(paths_equal(&picked, r"C:\anime\ongoing\frieren"));
}

#[test]
fn pick_preferred_episode_folder_breaks_ties_by_shortest_path() {
    let paths = vec![
        r"D:\show\season 1\01.mkv".to_string(),
        r"D:\show\season 1\02.mkv".to_string(),
        r"D:\show\season 2\01.mkv".to_string(),
        r"D:\show\season 2\02.mkv".to_string(),
    ];
    let picked = pick_preferred_episode_folder(&paths).expect("folder");
    assert!(paths_equal(&picked, r"D:\show\season 1"));
    assert_eq!(count_episodes_under_folder(&picked, &paths), 2);
}

#[test]
fn pick_preferred_episode_folder_does_not_match_similar_prefix() {
    let paths = vec![r"C:\anime\ongoing\frieren-extra\01.mkv".to_string()];
    let picked = pick_preferred_episode_folder(&paths).expect("folder");
    assert!(paths_equal(&picked, r"C:\anime\ongoing\frieren-extra"));
    assert_eq!(count_episodes_under_folder(&picked, &paths), 1);
}

#[test]
fn no_paths_no_folder() {
    let paths: Vec<String> = Vec::new();
    assert_eq!(pick_preferred_episode_folder(&paths), None);
}

#[test]
fn folder_prefix_counts_whole_components_only() {
    let paths = vec![
        r"C:\anime\frieren\01.mkv".to_string(),
        r"C:\anime\frieren-extra\01.mkv".to_string(),
        r"C:/anime/frieren/sub/02.mkv".to_string(),
    ];
    assert_eq!(count_episodes_under_folder(r"C:\anime\frieren", &paths), 2);
}

#[test]
fn gap_count_extends_to_anilist_total_unless_releasing() {
    assert_eq!(compute_gap_episode_count(1, 10, 8, None, None, 0), 2);
    assert_eq!(compute_gap_episode_count(1, 10, 10, Some(12), None, 0), 2);
    assert_eq!(compute_gap_episode_count(1, 10, 10, Some(12), Some("releasing"), 0), 0);
    assert_eq!(compute_gap_episode_count(1, 10, 10, Some(12), Some("FINISHED"), -2), 0);
    assert_eq!(compute_gap_episode_count(1, 10, 10, Some(0), None, 0), 0);
}

#[test]
fn longest_matching_root_wins() {
    let roots = vec![r"D:\anime".to_string(), r"D:\anime\ongoing".to_string(), r"E:\x".to_string()];
    assert_eq!(matching_root_folder(r"D:\anime\ongoing\show\01.mkv", &roots), Some(1));
    assert_eq!(matching_root_folder(r"D:\anime\done\01.mkv", &roots), Some(0));
    assert_eq!(matching_root_folder(r"F:\01.mkv", &roots), None);
}

#[test]
fn rename_titles_are_checked() {
    assert_eq!(normalize_anime_rename_title("  Frieren  "), Ok("Frieren".to_string()));
    assert_eq!(
        normalize_anime_rename_title("   "),
        Err("Anime title cannot be empty.".to_string())
    );
    assert_eq!(
        normalize_anime_rename_title("Re:Zero"),
        Err(r#"Anime title cannot contain Windows filename characters: < > : " / \ | ? *"#.to_string())
    );
}

#[test]
fn relative_paths_after_rename() {
    assert_eq!(
        renamed_relative_path(r"D:\anime\New\01.mkv", r"D:\anime", r"Old\01.mkv"),
        "New/01.mkv"
    );
    assert_eq!(
        renamed_relative_path(r"E:\other\01.mkv", r"D:\anime", r"Old\01.mkv"),
        "Old/01.mkv"
    );
}

use anime_player::library::{
    check_existing_destination, check_recorded_destination, check_rename_request,
    RenameFileRequest,
};

fn req(old: &str, new: &str) -> RenameFileRequest {
    RenameFileRequest { old_path: old.to_string(), new_path: new.to_string() }
}

#[test]
fn rename_requests_are_checked_in_order() {
    let roots = vec![r"D:\anime".to_string(), r"E:\other".to_string()];
    let none: Vec<String> = Vec::new();
    assert_eq!(
        check_rename_request(&req(r"D:\anime\a.mkv", r"D:\anime\b.mkv"), &roots, &none, &none),
        Ok(0)
    );
    assert_eq!(
        check_rename_request(&req(r"E:\other\a.mkv", r"E:\other\b.mkv"), &roots, &none, &none),
        Ok(1)
    );
    assert_eq!(
        check_rename_request(&req(r"D:\anime\a.mkv", r"D:\anime\a.mkv"), &roots, &none, &none),
        Err(r"Rename request does not change the path: D:\anime\a.mkv".to_string())
    );
    assert_eq!(
        check_rename_request(&req(r"anime\a.mkv", r"D:\anime\b.mkv"), &roots, &none, &none),
        Err(r"Source path is not absolute: anime\a.mkv".to_string())
    );
    assert_eq!(
        check_rename_request(&req(r"D:\anime\a.mkv", r"D:b.mkv"), &roots, &none, &none),
        Err(r"Destination path is not absolute: D:b.mkv".to_string())
    );
    assert_eq!(
        check_rename_request(&req(r"F:\x\a.mkv", r"F:\x\b.mkv"), &roots, &none, &none),
        Err(r"Source file is not inside a configured root folder: F:\x\a.mkv".to_string())
    );
    assert_eq!(
        check_rename_request(&req(r"D:\anime\a.mkv", r"D:\anime\A.mkv"), &roots, &none, &none),
        Err(r"Case-only renames are not supported in bulk mode: D:\anime\a.mkv".to_string())
    );
    let seen_src = vec![r"d:\anime\a.mkv".to_string()];
    assert_eq!(
        check_rename_request(&req(r"D:/anime/a.mkv", r"D:\anime\c.mkv"), &roots, &seen_src, &none),
        Err(r"Duplicate source path in rename request: D:/anime/a.mkv".to_string())
    );
    let seen_dst = vec![r"d:\anime\c.mkv".to_string()];
    assert_eq!(
        check_rename_request(&req(r"D:\anime\b.mkv", r"D:\anime\C.mkv"), &roots, &none, &seen_dst),
        Err(r"Multiple files would be renamed to the same destination: D:\anime\C.mkv".to_string())
    );
    assert_eq!(
        check_rename_request(&req(r"\\server\share\a.mkv", r"\\server\share\b.mkv"), &roots, &none, &none),
        Err(r"Source file is not inside a configured root folder: \\server\share\a.mkv".to_string())
    );
}

#[test]
fn existing_destinations() {
    let sources = vec![r"d:\anime\b.mkv".to_string()];
    let b = r"D:\anime\B.mkv".to_string();
    let c = r"D:\anime\c.mkv".to_string();
    assert_eq!(check_existing_destination(&b, true, &sources), Ok(()));
    assert_eq!(
        check_existing_destination(&c, true, &sources),
        Err(r"Destination already exists outside the rename set: D:\anime\c.mkv".to_string())
    );
    assert_eq!(check_existing_destination(&c, false, &sources), Ok(()));
    assert_eq!(check_recorded_destination(None, "episode", &sources), Ok(()));
    assert_eq!(check_recorded_destination(Some(&b), "episode", &sources), Ok(()));
    assert_eq!(
        check_recorded_destination(Some(&c), "unmatched file", &sources),
        Err(r"Destination already belongs to another unmatched file: D:\anime\c.mkv".to_string())
    );
}

#[test]
fn deletion_tally_counts_each_outcome() {
    let episodes = vec![
        EpisodeRemoval { cache_bytes: 10, file: FileRemoval::Removed { bytes: 1000, permanent: false } },
        EpisodeRemoval { cache_bytes: 0, file: FileRemoval::Missing },
        EpisodeRemoval { cache_bytes: 5, file: FileRemoval::Failed },
        EpisodeRemoval { cache_bytes: 0, file: FileRemoval::Removed { bytes: 200, permanent: true } },
    ];
    let summary = tally_episode_removals(&episodes);
    assert_eq!(summary.episodes_deleted, 3);
    assert_eq!(summary.episodes_failed, 1);
    assert_eq!(summary.bytes_deleted, 1215);
    assert!(summary.permanent_delete_used);
    assert!(!summary.cover_deleted);
    assert!(!summary.cover_failed);
    assert!(!removes_whole_anime(&summary, 4));
}

#[test]
fn deletion_without_failures_removes_the_anime() {
    let episodes = vec![
        EpisodeRemoval { cache_bytes: 0, file: FileRemoval::Missing },
        EpisodeRemoval { cache_bytes: 3, file: FileRemoval::Removed { bytes: 7, permanent: false } },
    ];
    let mut summary = tally_episode_removals(&episodes);
    assert!(!summary.permanent_delete_used);
    assert!(removes_whole_anime(&summary, 2));
    assert!(!removes_whole_anime(&summary, 3));
    assert!(record_cover_removal(&mut summary, &FileRemoval::Removed { bytes: 50, permanent: true }));
    assert_eq!(summary.bytes_deleted, 60);
    assert!(summary.cover_deleted);
    assert!(summary.permanent_delete_used);
}

#[test]
fn failed_cover_removal_keeps_its_path() {
    let mut summary = tally_episode_removals(&[]);
    assert_eq!(summary.episodes_deleted, 0);
    assert!(!record_cover_removal(&mut summary, &FileRemoval::Failed));
    assert!(summary.cover_failed);
    assert!(!summary.cover_deleted);
    assert!(record_cover_removal(&mut summary, &FileRemoval::Missing));
    assert_eq!(summary.bytes_deleted, 0);
}

#[test]
fn anime_rename_decisions() {
    assert_eq!(anime_rename_decision("Frieren", "frieren", "  ", None), Err("Anime title cannot be empty.".to_string()));
    assert_eq!(anime_rename_decision("Frieren", "frieren", "Frieren", Some(3)), Ok(false));
    assert_eq!(
        anime_rename_decision("Frieren", "frieren", "Sousou no Frieren", Some(3)),
        Err("Another anime already uses the title \"Sousou no Frieren\" (id 3).".to_string())
    );
    assert_eq!(anime_rename_decision("Frieren", "frieren", "Sousou no Frieren", None), Ok(true));
}
