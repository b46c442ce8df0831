use anime_player::anilist::{
    access_token_from_callback, app_callback_fragment, cover_path_for_storage,
    first_access_token, AnilistProgressSyncResult, REDIRECT_URI, anilist_login_url,
    auth_state_from, client_id_to_store, progress_sync_step, synced_result, ProgressSyncAction,
};
use anime_player::urls::UrlView;

#[test]
fn token_is_read_from_fragment() {
    assert_eq!(
        access_token_from_callback("anime-player://anilist-auth#access_token=abc123&token_type=Bearer"),
        Ok("abc123".to_string())
    );
    assert_eq!(
        access_token_from_callback("anime-player://anilist-auth#token_type=Bearer&access_token=a%20b+c"),
        Ok("a b c".to_string())
    );
}

#[test]
fn empty_tokens_are_skipped() {
    assert_eq!(
        access_token_from_callback("anime-player://anilist-auth#access_token=&access_token=second"),
        Ok("second".to_string())
    );
    assert_eq!(
        access_token_from_callback("anime-player://anilist-auth#access_token="),
        Err("AniList callback did not include an access token.".to_string())
    );
    assert_eq!(
        access_token_from_callback("anime-player://anilist-auth"),
        Err("AniList callback did not include an access token.".to_string())
    );
}

#[test]
fn other_addresses_are_refused() {
    assert_eq!(
        access_token_from_callback("https://anilist-auth#access_token=x"),
        Err("Unexpected AniList callback URL. Expected anime-player://anilist-auth.".to_string())
    );
    assert_eq!(
        access_token_from_callback("anime-player://elsewhere#access_token=x"),
        Err("Unexpected AniList callback URL. Expected anime-player://anilist-auth.".to_string())
    );
    let e = access_token_from_callback("not a url").unwrap_err();
    assert!(e.starts_with("Invalid AniList callback URL: "));
    assert!(e.len() > "Invalid AniList callback URL: ".len());
    assert_eq!(REDIRECT_URI, "anime-player://anilist-auth");
}

#[test]
fn callback_parts() {
    let ok = UrlView {
        scheme: "anime-player".to_string(),
        host: Some("anilist-auth".to_string()),
        fragment: Some("access_token=t".to_string()),
    };
    assert_eq!(app_callback_fragment(&ok), Ok(Some("access_token=t".to_string())));
    let wrong = UrlView { scheme: "anime-player".to_string(), host: None, fragment: None };
    assert!(app_callback_fragment(&wrong).is_err());
    let pairs = vec![
        ("token_type".to_string(), "Bearer".to_string()),
        ("access_token".to_string(), String::new()),
        ("access_token".to_string(), "tok".to_string()),
    ];
    assert_eq!(first_access_token(&pairs), Some("tok".to_string()));
    assert_eq!(first_access_token(&Vec::new()), None);
}

#[test]
fn cover_paths() {
    assert_eq!(
        cover_path_for_storage(r"C:\data\covers\12.jpg", r"C:\data"),
        "covers/12.jpg"
    );
    assert_eq!(
        cover_path_for_storage(r"D:\elsewhere\12.jpg", r"C:\data"),
        "D:/elsewhere/12.jpg"
    );
}

#[test]
fn skipped_sync() {
    let r = AnilistProgressSyncResult::skipped("offline".to_string(), Some(3), None);
    assert!(!r.synced);
    assert_eq!(r.reason.as_deref(), Some("offline"));
    assert_eq!(r.remote_progress, Some(3));
    assert_eq!(r.target_progress, None);
}

#[test]
fn login_url_uses_the_default_client_id() {
    assert_eq!(
        anilist_login_url(None).unwrap(),
        "https://anilist.co/api/v2/oauth/authorize?client_id=40455&response_type=token"
    );
    assert_eq!(
        anilist_login_url(Some("my id")).unwrap(),
        "https://anilist.co/api/v2/oauth/authorize?client_id=my+id&response_type=token"
    );
    assert_eq!(client_id_to_store("  123 "), Some("123".to_string()));
    assert_eq!(client_id_to_store("   "), None);
    let state = auth_state_from(None, Some(7), Some("viewer"), true);
    assert_eq!(state.client_id.as_deref(), Some("40455"));
    assert_eq!(state.viewer_id, Some(7));
    assert!(state.authenticated);
}

#[test]
fn progress_sync_decisions() {
    match progress_sync_step(false, Some((1, 2, 5)), Some(1)) {
        ProgressSyncAction::Skip(r) => {
            assert!(!r.synced);
            assert_eq!(r.reason.as_deref(), Some("AniList is not logged in."));
        }
        ProgressSyncAction::Save(_) => panic!("not logged in"),
    }
    match progress_sync_step(true, None, None) {
        ProgressSyncAction::Skip(r) => assert_eq!(
            r.reason.as_deref(),
            Some("Episode is not linked to AniList or has no parsed episode number.")
        ),
        ProgressSyncAction::Save(_) => panic!("no target"),
    }
    match progress_sync_step(true, Some((1, 2, 5)), Some(5)) {
        ProgressSyncAction::Skip(r) => {
            assert_eq!(r.remote_progress, Some(5));
            assert_eq!(r.target_progress, Some(5));
        }
        ProgressSyncAction::Save(_) => panic!("already synced"),
    }
    assert!(matches!(progress_sync_step(true, Some((1, 2, 5)), None), ProgressSyncAction::Save(5)));
    let done = synced_result(5, 5);
    assert!(done.synced);
    assert_eq!(done.reason, None);
    assert_eq!(done.remote_progress, Some(5));
}
