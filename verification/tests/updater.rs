use anime_player::updater::{
    allowed_file_name, check_file_url, digest_needs_update, files_to_download,
    local_file_needs_update, normalize_sha256, parse_version_parts, refreshed_phase,
    remote_is_newer, update_available, validate_manifest, ManifestFile, UpdateManifest,
    UpdatePhase,
};
use anime_player::urls::UrlView;

const ABC_SHA: &str = "ba7816bf8f01cfea414140de5dae2223b00361a396177a9cb410ff61f20015ad";
const EMPTY_SHA: &str = "e3b0c44298fc1c149afbf4c8996fb92427ae41e4649b934ca495991b7852b855";

fn file(name: &str, sha: &str, size: u64, url: &str) -> ManifestFile {
    ManifestFile {
        name: name.to_string(),
        sha256: sha.to_string(),
        size,
        url: url.to_string(),
    }
}

fn manifest(files: Vec<ManifestFile>) -> UpdateManifest {
    UpdateManifest {
        schema: 1,
        version: "v1.4".to_string(),
        notes: String::new(),
        files,
    }
}

#[test]
fn allowed_names() {
    assert!(allowed_file_name("anime-player.exe"));
    assert!(allowed_file_name("_update.ps1"));
    assert!(!allowed_file_name("evil.exe"));
    assert!(!allowed_file_name("../anime-player.exe"));
}

#[test]
fn digests_are_normalized() {
    let upper = format!("  {}  ", ABC_SHA.to_uppercase());
    assert_eq!(normalize_sha256(&upper), Ok(ABC_SHA.to_string()));
    assert_eq!(
        normalize_sha256("abc"),
        Err("manifest file hash is not a SHA256 hex digest".to_string())
    );
    let bad = format!("{}g", &ABC_SHA[..63]);
    assert!(normalize_sha256(&bad).is_err());
}

#[test]
fn installed_file_compared_by_sha256() {
    let f = file("ffmpeg.exe", &ABC_SHA.to_uppercase(), 3, "https://x/ffmpeg.exe");
    assert_eq!(local_file_needs_update(Some(b"abc"), &f), Ok(false));
    assert_eq!(local_file_needs_update(Some(b"abd"), &f), Ok(true));
    assert_eq!(local_file_needs_update(None, &f), Ok(true));
    let empty = file("ffmpeg.exe", EMPTY_SHA, 0, "https://x/ffmpeg.exe");
    assert_eq!(local_file_needs_update(Some(b""), &empty), Ok(false));
    let broken = file("ffmpeg.exe", "nope", 0, "https://x/ffmpeg.exe");
    assert!(local_file_needs_update(Some(b"abc"), &broken).is_err());
    assert_eq!(local_file_needs_update(None, &broken), Ok(true));
}

#[test]
fn digest_comparison() {
    let f = file("ffmpeg.exe", ABC_SHA, 3, "https://x");
    assert_eq!(digest_needs_update(ABC_SHA, &f), Ok(false));
    assert_eq!(digest_needs_update(EMPTY_SHA, &f), Ok(true));
}

#[test]
fn download_list_and_size() {
    let m = manifest(vec![
        file("anime-player.exe", ABC_SHA, 10, "https://x/a"),
        file("ffmpeg.exe", ABC_SHA, 20, "https://x/b"),
        file("fpcalc.exe", EMPTY_SHA, 5, "https://x/c"),
    ]);
    let current = vec![Some(b"abc".to_vec()), Some(b"old".to_vec()), None];
    let (idx, bytes) = files_to_download(&current, &m).expect("ok");
    assert_eq!(idx, vec![1, 2]);
    assert_eq!(bytes, 25);
    let big = manifest(vec![
        file("anime-player.exe", ABC_SHA, u64::MAX, "https://x/a"),
        file("ffmpeg.exe", ABC_SHA, 7, "https://x/b"),
    ]);
    let (_, saturated) = files_to_download(&vec![None, None], &big).expect("ok");
    assert_eq!(saturated, u64::MAX);
    let bad = manifest(vec![file("ffmpeg.exe", "zz", 1, "https://x")]);
    assert_eq!(
        files_to_download(&vec![Some(b"abc".to_vec())], &bad),
        Err("manifest file hash is not a SHA256 hex digest".to_string())
    );
}

#[test]
fn versions() {
    assert_eq!(parse_version_parts(" v1.12 "), Some((1, 12)));
    assert_eq!(parse_version_parts("vv2.0"), Some((2, 0)));
    assert_eq!(parse_version_parts("1.2.3"), None);
    assert_eq!(parse_version_parts("1"), None);
    assert_eq!(parse_version_parts("1.x"), None);
    assert!(remote_is_newer("v1.3", Some("v1.2")));
    assert!(!remote_is_newer("v1.2", Some("v1.10")));
    assert!(!remote_is_newer("v1.2", Some("v1.2")));
    assert!(remote_is_newer("nightly", Some("v1.2")));
    assert!(remote_is_newer("v1.0", None));
    assert!(!remote_is_newer("v1.2", Some("1.2")));
}

#[test]
fn newer_is_never_mutual() {
    for (a, b) in [("v1.2", "v1.3"), ("v2.0", "v1.9"), ("v1.1", "v1.1")] {
        assert!(!(remote_is_newer(a, Some(b)) && remote_is_newer(b, Some(a))));
    }
}

#[test]
fn availability_and_phase() {
    assert!(update_available("v1.2", Some("v1.2"), 1));
    assert!(!update_available("v1.2", Some("v1.2"), 0));
    assert!(refreshed_phase(true, true, UpdatePhase::Downloading) == UpdatePhase::Downloading);
    assert!(refreshed_phase(false, true, UpdatePhase::Error) == UpdatePhase::Ready);
    assert!(refreshed_phase(false, false, UpdatePhase::Error) == UpdatePhase::Idle);
}

#[test]
fn manifest_validation_errors() {
    let good = manifest(vec![file("ffmpeg.exe", ABC_SHA, 1, "https://example.com/ffmpeg.exe")]);
    assert_eq!(validate_manifest(&good), Ok(()));

    let mut schema = manifest(vec![file("ffmpeg.exe", ABC_SHA, 1, "https://example.com/f")]);
    schema.schema = 2;
    assert_eq!(
        validate_manifest(&schema),
        Err("unsupported updater manifest schema 2".to_string())
    );

    let mut no_version = manifest(vec![file("ffmpeg.exe", ABC_SHA, 1, "https://example.com/f")]);
    no_version.version = "  ".to_string();
    assert_eq!(
        validate_manifest(&no_version),
        Err("manifest is missing a version".to_string())
    );

    assert_eq!(
        validate_manifest(&manifest(Vec::new())),
        Err("manifest does not list any files".to_string())
    );

    let disallowed = manifest(vec![file("evil.exe", ABC_SHA, 1, "https://example.com/f")]);
    assert_eq!(
        validate_manifest(&disallowed),
        Err("manifest lists a disallowed file: evil.exe".to_string())
    );

    let bad_hash = manifest(vec![file("ffmpeg.exe", "123", 1, "https://example.com/f")]);
    assert_eq!(
        validate_manifest(&bad_hash),
        Err("manifest file hash is not a SHA256 hex digest".to_string())
    );

    let bad_url = manifest(vec![file("ffmpeg.exe", ABC_SHA, 1, "not a url")]);
    let e = validate_manifest(&bad_url).unwrap_err();
    assert!(e.starts_with("invalid file url for ffmpeg.exe: "));
    assert!(e.len() > "invalid file url for ffmpeg.exe: ".len());

    let http = manifest(vec![file("ffmpeg.exe", ABC_SHA, 1, "http://example.com/f")]);
    assert_eq!(
        validate_manifest(&http),
        Err("file url for ffmpeg.exe must be https".to_string())
    );
}

#[test]
fn file_url_checks() {
    let name = "ffmpeg.exe".to_string();
    let https = Ok(UrlView { scheme: "https".to_string(), host: Some("x".to_string()), fragment: None });
    assert_eq!(check_file_url(&name, &https), Ok(()));
    let ftp = Ok(UrlView { scheme: "ftp".to_string(), host: None, fragment: None });
    assert_eq!(
        check_file_url(&name, &ftp),
        Err("file url for ffmpeg.exe must be https".to_string())
    );
    let err = Err("relative URL without a base".to_string());
    assert_eq!(
        check_file_url(&name, &err),
        Err("invalid file url for ffmpeg.exe: relative URL without a base".to_string())
    );
}

use anime_player::updater::{
    check_download_digest, check_plan_file, install_dir_for_exe, parent_pid_from_args,
    partial_download_name, recorded_text,
};

#[test]
fn install_helpers() {
    assert_eq!(recorded_text("  v1.2\n"), Some("v1.2".to_string()));
    assert_eq!(recorded_text(" \n"), None);
    assert_eq!(partial_download_name("ffmpeg.exe"), "ffmpeg.exe.part");
    assert_eq!(partial_download_name("update"), "update.download.part");
    assert_eq!(check_download_digest("a.exe", "ab", "ab"), Ok(()));
    assert_eq!(
        check_download_digest("a.exe", "ab", "cd"),
        Err("SHA256 mismatch for a.exe. Expected ab but got cd.".to_string())
    );
    assert_eq!(check_plan_file("fpcalc.exe"), Ok(()));
    assert_eq!(
        check_plan_file("evil.dll"),
        Err("pending update listed a disallowed file: evil.dll".to_string())
    );
}

#[test]
fn helper_arguments() {
    let args = |v: &[&str]| v.iter().map(|s| s.to_string()).collect::<Vec<String>>();
    assert_eq!(parent_pid_from_args(&args(&["app.exe", "--apply-update", "--parent-pid", "4242"])), Some(4242));
    assert_eq!(parent_pid_from_args(&args(&["app.exe", "--parent-pid"])), None);
    assert_eq!(parent_pid_from_args(&args(&["app.exe", "--parent-pid", "x", "--parent-pid", "5"])), None);
    assert_eq!(parent_pid_from_args(&args(&["app.exe"])), None);
}

#[test]
fn install_folders() {
    assert_eq!(install_dir_for_exe(r"C:\Apps\Anime\anime-player.exe"), Ok(r"C:\Apps\Anime".to_string()));
    assert_eq!(
        install_dir_for_exe(r"C:\Apps\Anime\_pending\anime-player.exe"),
        Ok(r"C:\Apps\Anime".to_string())
    );
    assert_eq!(
        install_dir_for_exe("anime-player.exe"),
        Ok(String::new())
    );
}
