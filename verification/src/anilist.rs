//! AniList account linking: records exchanged with the service and the reading of the OAuth
//! callback that carries the access token.
use vstd::prelude::*;

use crate::paths::{components, path_starts_with};
use crate::text::{chars_of, eq_str, join, replace_char, string_from, string_of, trim, trim_chars};
use crate::urls::{
    form_pairs, form_pairs_of, pair_texts, parse_url, parsed_url, url_error, url_parts,
    url_with_query, url_with_query_text, UrlView,
};

verus! {

pub const REDIRECT_URI: &'static str = "anime-player://anilist-auth";

pub struct AnilistAuthState {
    pub client_id: Option<String>,
    pub viewer_id: Option<i64>,
    pub viewer_name: Option<String>,
    pub authenticated: bool,
}

pub struct AnilistSearchResult {
    pub id: i64,
    pub title: String,
    pub native_title: Option<String>,
    pub format: Option<String>,
    pub status: Option<String>,
    pub episodes: Option<i64>,
    pub season_year: Option<i64>,
    pub cover_image_url: Option<String>,
    pub site_url: String,
}

pub struct AnilistProgressSyncResult {
    pub synced: bool,
    pub reason: Option<String>,
    pub remote_progress: Option<i64>,
    pub target_progress: Option<i64>,
}

pub struct AnilistLocalProgressApplyResult {
    pub progress: i64,
    pub updated_episodes: i64,
}

impl AnilistProgressSyncResult {
    /// A sync that did not happen, with its reason.
    pub fn skipped(reason: String, remote_progress: Option<i64>, target_progress: Option<i64>) -> (r:
        AnilistProgressSyncResult)
        ensures
            !r.synced,
            r.reason == Some(reason),
            r.remote_progress == remote_progress,
            r.target_progress == target_progress,
    {
        AnilistProgressSyncResult { synced: false, reason: Some(reason), remote_progress, target_progress }
    }
}

/// The message for a callback without a token.
pub open spec fn missing_token_message() -> Seq<char> {
    "AniList callback did not include an access token."@
}

/// The message for a callback to another address.
pub open spec fn unexpected_callback_message() -> Seq<char> {
    "Unexpected AniList callback URL. Expected anime-player://anilist-auth."@
}

/// The first pair whose key is `access_token` and whose value is not empty.
pub open spec fn first_token(pairs: Seq<(Seq<char>, Seq<char>)>) -> Option<Seq<char>>
    decreases pairs.len(),
{
    if pairs.len() == 0 {
        None
    } else if pairs[0].0 == "access_token"@ && pairs[0].1.len() > 0 {
        Some(pairs[0].1)
    } else {
        first_token(pairs.drop_first())
    }
}

/// URL parts addressed to the app (`anime-player://anilist-auth`).
pub open spec fn is_app_target(parts: (Seq<char>, Option<Seq<char>>, Option<Seq<char>>)) -> bool {
    parts.0 == "anime-player"@ && parts.1 == Some("anilist-auth"@)
}

/// The callback parses and is addressed to the app.
pub open spec fn is_app_callback(url: Seq<char>) -> bool {
    parsed_url(url) matches Ok(parts) && is_app_target(parts)
}

/// The token carried by an app callback: the first non-empty `access_token` pair of its
/// fragment.
pub open spec fn callback_token(url: Seq<char>) -> Option<Seq<char>> {
    match parsed_url(url) {
        Ok(parts) => match parts.2 {
            Some(fragment) => first_token(form_pairs_of(fragment)),
            None => None,
        },
        Err(_) => None,
    }
}

/// The start of the message for a callback that does not parse; the parser's error follows.
pub open spec fn invalid_callback_prefix() -> Seq<char> {
    "Invalid AniList callback URL: "@
}

/// The fragment of a parsed callback URL addressed to the app; the error for any other
/// address.
pub fn app_callback_fragment(url: &UrlView) -> (r: Result<Option<String>, String>)
    ensures
        is_app_target(url_parts(*url)) ==> (r matches Ok(f) && f.deep_view()
            == url.fragment.deep_view()),
        !is_app_target(url_parts(*url)) ==> (r matches Err(e) && e@
            == unexpected_callback_message()),
{
    let scheme = chars_of(url.scheme.as_str());
    let host_ok = match &url.host {
        Some(h) => eq_str(&chars_of(h.as_str()), "anilist-auth"),
        None => false,
    };
    if !eq_str(&scheme, "anime-player") || !host_ok {
        return Err(string_from("Unexpected AniList callback URL. Expected anime-player://anilist-auth."));
    }
    match &url.fragment {
        Some(f) => Ok(Some(string_of(&chars_of(f.as_str())))),
        None => Ok(None),
    }
}

/// The first non-empty `access_token` value among decoded form pairs.
pub fn first_access_token(pairs: &Vec<(String, String)>) -> (r: Option<String>)
    ensures
        r.deep_view() == first_token(pair_texts(pairs@)),
{
    let ghost ps = pair_texts(pairs@);
    assert(ps.skip(0) =~= ps);
    let mut i: usize = 0;
    while i < pairs.len()
        invariant
            i <= pairs.len(),
            ps == pair_texts(pairs@),
            first_token(ps) == first_token(ps.skip(i as int)),
        decreases pairs.len() - i,
    {
        let key = chars_of(pairs[i].0.as_str());
        let value = chars_of(pairs[i].1.as_str());
        assert(ps.skip(i as int)[0] == (key@, value@));
        if eq_str(&key, "access_token") && value.len() > 0 {
            return Some(string_of(&value));
        }
        assert(ps.skip(i as int).drop_first() =~= ps.skip(i + 1));
        i = i + 1;
    }
    None
}

/// Reads the access token from the OAuth callback URL.
pub fn access_token_from_callback(callback_url: &str) -> (r: Result<String, String>)
    ensures
        parsed_url(callback_url@) is Err ==> (r matches Err(e) && e@ == invalid_callback_prefix()
            + url_error(callback_url@)),
        parsed_url(callback_url@) is Ok && !is_app_callback(callback_url@) ==> (r matches Err(e)
            && e@ == unexpected_callback_message()),
        is_app_callback(callback_url@) ==> match callback_token(callback_url@) {
            Some(t) => r matches Ok(s) && s@ == t,
            None => r matches Err(e) && e@ == missing_token_message(),
        },
{
    let url = match parse_url(callback_url) {
        Ok(u) => u,
        Err(e) => {
            let mut v = chars_of("Invalid AniList callback URL: ");
            crate::text::append_str(&mut v, e.as_str());
            return Err(string_of(&v));
        },
    };
    let fragment = match app_callback_fragment(&url)? {
        Some(f) => f,
        None => {
            return Err(string_from("AniList callback did not include an access token."));
        },
    };
    let pairs = form_pairs(fragment.as_str());
    match first_access_token(&pairs) {
        Some(t) => Ok(t),
        None => Err(string_from("AniList callback did not include an access token.")),
    }
}

/// How a downloaded cover is stored: relative to the data folder when it lies there, with `/`
/// separators.
pub fn cover_path_for_storage(path: &str, data_dir: &str) -> (r: String)
    ensures
        r@ == (if path_starts_with(path@, data_dir@) {
            join(components(path@).skip(components(data_dir@).len() as int), seq!['/'])
        } else {
            replace_char(path@, '\\', '/')
        }),
{
    crate::library::renamed_relative_path(path, data_dir, path)
}


// ---------------------------------------------------------------------------------------------
// Login
// ---------------------------------------------------------------------------------------------

/// The AniList page where a user authorizes the app.
pub const AUTHORIZE_URL: &'static str = "https://anilist.co/api/v2/oauth/authorize";

/// The app's own AniList client id, used while no other is saved.
pub const DEFAULT_CLIENT_ID: &'static str = "40455";

/// The client id a login uses: the saved one, else the app's own.
pub open spec fn effective_client_id(saved: Option<Seq<char>>) -> Seq<char> {
    match saved {
        Some(s) => s,
        None => "40455"@,
    }
}

/// What is saved for a client id entered in settings: the trimmed entry, or nothing (so the
/// app's own id is used) when the entry is blank.
pub fn client_id_to_store(entry: &str) -> (r: Option<String>)
    ensures
        trim(entry@).len() == 0 ==> r is None,
        trim(entry@).len() > 0 ==> (r matches Some(s) && s@ == trim(entry@)),
{
    let t = trim_chars(&chars_of(entry));
    if t.len() == 0 {
        None
    } else {
        Some(string_of(&t))
    }
}

/// The account state shown in settings: the client id in use, the viewer recorded at login,
/// and whether a token is saved.
pub fn auth_state_from(
    saved_client_id: Option<&str>,
    viewer_id: Option<i64>,
    viewer_name: Option<&str>,
    has_token: bool,
) -> (r: AnilistAuthState)
    ensures
        r.client_id matches Some(c) && c@ == effective_client_id(saved_client_id.deep_view()),
        r.viewer_id == viewer_id,
        r.viewer_name.deep_view() == viewer_name.deep_view(),
        r.authenticated == has_token,
{
    let client = match saved_client_id {
        Some(c) => string_from(c),
        None => {
            proof {
                reveal_strlit("40455");
            }
            string_from("40455")
        },
    };
    let name = match viewer_name {
        Some(n) => Some(string_from(n)),
        None => None,
    };
    AnilistAuthState { client_id: Some(client), viewer_id, viewer_name: name, authenticated: has_token }
}

/// The URL that starts an AniList login: the authorize page with the client id in use and
/// `response_type=token` as its query.
pub fn anilist_login_url(saved_client_id: Option<&str>) -> (r: Result<String, String>)
    ensures
        match url_with_query_text(
            "https://anilist.co/api/v2/oauth/authorize"@,
            "client_id"@,
            effective_client_id(saved_client_id.deep_view()),
            "response_type"@,
            "token"@,
        ) {
            Ok(t) => r matches Ok(s) && s@ == t,
            Err(m) => r matches Err(e) && e@ == m,
        },
{
    let client = match saved_client_id {
        Some(c) => c,
        None => "40455",
    };
    url_with_query(AUTHORIZE_URL, "client_id", client, "response_type", "token")
}

// ---------------------------------------------------------------------------------------------
// Progress sync
// ---------------------------------------------------------------------------------------------

/// What syncing an episode's progress to AniList does next.
pub enum ProgressSyncAction {
    /// Nothing is sent; this is the result.
    Skip(AnilistProgressSyncResult),
    /// The progress to save on AniList.
    Save(i64),
}

/// The message when no AniList token is saved.
pub open spec fn not_logged_in_message() -> Seq<char> {
    "AniList is not logged in."@
}

/// The message when the episode has no AniList progress target.
pub open spec fn no_target_message() -> Seq<char> {
    "Episode is not linked to AniList or has no parsed episode number."@
}

/// The message when AniList already counts the episode as watched.
pub open spec fn already_synced_message() -> Seq<char> {
    "AniList progress is already at or beyond this episode."@
}

/// Decides a progress sync: `target` is the title, the AniList media and the progress the
/// episode stands for (`None` when the episode has none); `remote_progress` is the progress
/// AniList reports (`None` counts as 0). Nothing is sent unless logged in with a target above the
/// remote progress.
pub fn progress_sync_step(
    logged_in: bool,
    target: Option<(i64, i64, i64)>,
    remote_progress: Option<i64>,
) -> (r: ProgressSyncAction)
    ensures
        !logged_in ==> (r matches ProgressSyncAction::Skip(s) && !s.synced && (s.reason matches Some(
            m,
        ) && m@ == not_logged_in_message()) && s.remote_progress is None && s.target_progress is None),
        logged_in && target is None ==> (r matches ProgressSyncAction::Skip(s) && !s.synced && (
        s.reason matches Some(m) && m@ == no_target_message()) && s.remote_progress is None
            && s.target_progress is None),
        logged_in && target is Some ==> ({
            let t = (target->0).2;
            let rp = match remote_progress {
                Some(p) => p,
                None => 0,
            };
            &&& rp >= t ==> (r matches ProgressSyncAction::Skip(s) && !s.synced && (
            s.reason matches Some(m) && m@ == already_synced_message()) && s.remote_progress
                == Some(rp) && s.target_progress == Some(t))
            &&& rp < t ==> r == ProgressSyncAction::Save(t)
        }),
{
    if !logged_in {
        return ProgressSyncAction::Skip(
            AnilistProgressSyncResult::skipped(string_from("AniList is not logged in."), None, None),
        );
    }
    let t = match target {
        Some(t) => t.2,
        None => {
            return ProgressSyncAction::Skip(
                AnilistProgressSyncResult::skipped(
                    string_from("Episode is not linked to AniList or has no parsed episode number."),
                    None,
                    None,
                ),
            );
        },
    };
    let rp = match remote_progress {
        Some(p) => p,
        None => 0,
    };
    if rp >= t {
        ProgressSyncAction::Skip(
            AnilistProgressSyncResult::skipped(
                string_from("AniList progress is already at or beyond this episode."),
                Some(rp),
                Some(t),
            ),
        )
    } else {
        ProgressSyncAction::Save(t)
    }
}

/// The result of a sync that saved `saved` on AniList for an episode standing for `target`.
pub fn synced_result(saved: i64, target: i64) -> (r: AnilistProgressSyncResult)
    ensures
        r.synced,
        r.reason is None,
        r.remote_progress == Some(saved),
        r.target_progress == Some(target),
{
    AnilistProgressSyncResult { synced: true, reason: None, remote_progress: Some(saved), target_progress: Some(target) }
}

} // verus!
