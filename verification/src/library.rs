//! Library records and the pure decisions of library maintenance: episode-gap counting, the
//! preferred episode folder of a title, root-folder matching, rename titles and paths.
use vstd::prelude::*;

use crate::paths::{
    windows_key,
    components, components_of, parent_chars, parent_text, path_starts_with,
    path_starts_with_chars, shorter_chars, shorter_path, utf8_len, utf8_len_of,
    lemma_shorter_path_order,
};
use crate::text::{
    chars_of, char_is_control, is_control, join, join_chars, replace_char, replace_chars,
    slice_chars, string_from, string_of, trim, trim_chars, vviews, lower, lower_chars, eq_chars,
    eq_str,
};
use crate::patterns::{opt_texts, regex_capture_names, regex_compiles, regex_error_text, CompiledPattern};

verus! {

pub struct VideoFile {
    pub path: String,
    pub name: String,
    pub relative_path: String,
    pub size: u64,
}

pub struct RootFolder {
    pub id: i64,
    pub path: String,
}

pub struct RegexRule {
    pub id: i64,
    pub name: String,
    pub detection_regex: String,
    pub title_regex: String,
    pub enabled: bool,
    pub priority: i64,
}

pub struct Category {
    pub id: i64,
    pub name: String,
    pub is_default: bool,
    pub sort_order: i64,
}

pub struct AnimeSummary {
    pub id: i64,
    pub title: String,
    pub category_id: i64,
    pub anilist_id: Option<i64>,
    pub anilist_title: Option<String>,
    pub anilist_site_url: Option<String>,
    pub anilist_cover_path: Option<String>,
    pub custom_thumbnail_path: Option<String>,
    pub tracker_offset: i64,
    pub episode_count: i64,
    pub unwatched_count: i64,
    /// Gaps in the integer episode-number sequence, optionally extended to the AniList total.
    pub gap_episode_count: i64,
    pub last_watched_at: Option<String>,
    pub created_at: String,
    pub latest_episode_at: Option<String>,
    pub first_episode_path: Option<String>,
    pub no_op_ed: bool,
}

pub struct MissingAnimeSummary {
    pub id: i64,
    pub title: String,
    pub category_id: i64,
    pub anilist_id: Option<i64>,
    pub anilist_title: Option<String>,
    pub anilist_site_url: Option<String>,
    pub anilist_cover_path: Option<String>,
    pub custom_thumbnail_path: Option<String>,
    pub tracker_offset: i64,
    pub episode_count: i64,
    pub unwatched_count: i64,
    pub missing_episode_count: i64,
    pub total_episode_count: i64,
    pub last_watched_at: Option<String>,
    pub created_at: String,
    pub latest_episode_at: Option<String>,
    pub first_episode_path: Option<String>,
}

pub struct AnimeSearchEntry {
    pub id: i64,
    pub title: String,
    pub anilist_title: Option<String>,
    pub file_names: Vec<String>,
}

pub struct LibraryState {
    pub db_path: String,
    pub root_folders: Vec<RootFolder>,
    pub regex_rules: Vec<RegexRule>,
    pub categories: Vec<Category>,
    pub anime: Vec<AnimeSummary>,
    pub recent_anime: Vec<AnimeSummary>,
    pub missing_anime: Vec<MissingAnimeSummary>,
    pub unmatched_count: i64,
    pub prefer_anilist_display_title: bool,
    pub hide_anilist_features: bool,
    pub skip_op_ed: bool,
    pub auto_op_ed_detect: bool,
    pub dont_skip_first_episode_op_ed: bool,
    pub clean_unused_scrub_sprites: bool,
}

pub struct ScanSummary {
    pub roots_scanned: i64,
    pub episodes_imported: i64,
    pub episodes_removed: i64,
    pub unmatched_files: i64,
}

pub struct ProgressOverrideSummary {
    pub progress: i64,
    pub updated_episodes: i64,
}

pub struct LocalDataStats {
    pub database_bytes: u64,
    pub thumbnails_bytes: u64,
    pub scrub_sprites_bytes: u64,
    pub op_ed_fingerprints_bytes: u64,
    pub total_bytes: u64,
}

pub struct LocalDataCleanupSummary {
    pub roots_scanned: i64,
    pub stale_episodes_removed: i64,
    pub empty_anime_removed: i64,
    pub unmatched_files_removed: i64,
    pub thumbnails_removed: i64,
    pub scrub_sprites_removed: i64,
    pub op_ed_fingerprints_removed: i64,
    pub op_ed_temp_pcm_removed: i64,
    pub bytes_removed: u64,
}

pub struct DeleteAnimeFilesSummary {
    pub episodes_deleted: i64,
    pub episodes_failed: i64,
    pub bytes_deleted: u64,
    pub cover_deleted: bool,
    pub cover_failed: bool,
    pub permanent_delete_used: bool,
}

pub struct ClearAnimeLocalDataSummary {
    pub episodes_removed: i64,
    pub bytes_removed: u64,
}

pub struct RenameFileRequest {
    pub old_path: String,
    pub new_path: String,
}

pub struct RenameFilesSummary {
    pub files_renamed: i64,
}

pub struct RenameAnimeSummary {
    pub files_renamed: i64,
}

pub struct RegexRuleInput {
    pub name: String,
    pub detection_regex: String,
    pub title_regex: String,
    pub enabled: bool,
    pub priority: i64,
}

// ---------------------------------------------------------------------------------------------
// Episode gaps
// ---------------------------------------------------------------------------------------------

/// The status AniList reports for a title that is still airing, in any ASCII case.
pub open spec fn is_releasing(status: Option<Seq<char>>) -> bool {
    status matches Some(s) && lower(s) == "releasing"@
}

/// The highest episode number counted: the highest present, extended to the AniList total
/// (shifted by the tracker offset) unless the title is releasing.
pub open spec fn effective_max_episode(
    max_int_ep: int,
    anilist_episodes: Option<i64>,
    anilist_status: Option<Seq<char>>,
    tracker_offset: int,
) -> int {
    if !is_releasing(anilist_status) {
        match anilist_episodes {
            Some(ae) => if ae > 0 && ae + tracker_offset > max_int_ep {
                ae + tracker_offset
            } else {
                max_int_ep
            },
            None => max_int_ep,
        }
    } else {
        max_int_ep
    }
}

/// Missing integer episode numbers between the lowest and the highest counted.
pub open spec fn gap_count(
    min_int_ep: int,
    max_int_ep: int,
    int_ep_count: int,
    anilist_episodes: Option<i64>,
    anilist_status: Option<Seq<char>>,
    tracker_offset: int,
) -> int {
    effective_max_episode(max_int_ep, anilist_episodes, anilist_status, tracker_offset)
        - min_int_ep + 1 - int_ep_count
}

/// A title that AniList reports as releasing, whatever the case of each letter of the status,
/// is never extended to the AniList total: its gap count is the missing numbers between the
/// lowest and highest present episodes, `max - min + 1 - count`.
pub proof fn lemma_releasing_gap_ignores_total(
    min_int_ep: int,
    max_int_ep: int,
    int_ep_count: int,
    anilist_episodes: Option<i64>,
    status: Seq<char>,
    tracker_offset: int,
)
    requires
        status.len() == 9,
        forall|i: int|
            0 <= i < 9 ==> #[trigger] status[i] == "releasing"@[i] || status[i]
                == "RELEASING"@[i],
    ensures
        gap_count(
            min_int_ep,
            max_int_ep,
            int_ep_count,
            anilist_episodes,
            Some(status),
            tracker_offset,
        ) == max_int_ep - min_int_ep + 1 - int_ep_count,
{
    reveal_strlit("releasing");
    reveal_strlit("RELEASING");
    assert(lower(status) =~= "releasing"@) by {
        assert forall|i: int| 0 <= i < 9 implies #[trigger] lower(status)[i] == "releasing"@[i] by {
            assert(status[i] == "releasing"@[i] || status[i] == "RELEASING"@[i]);
        }
    }
}

/// A title that is not releasing, with an AniList total (shifted by the tracker offset) above
/// the highest present episode, counts every number up to that total: the gap count is
/// `total + offset - min + 1 - count`.
pub proof fn lemma_finished_gap_reaches_total(
    min_int_ep: int,
    max_int_ep: int,
    int_ep_count: int,
    total: i64,
    status: Option<Seq<char>>,
    tracker_offset: int,
)
    requires
        !is_releasing(status),
        total > 0,
        total + tracker_offset > max_int_ep,
    ensures
        gap_count(min_int_ep, max_int_ep, int_ep_count, Some(total), status, tracker_offset)
            == total + tracker_offset - min_int_ep + 1 - int_ep_count,
{
}

/// A value fits in `i64`.
pub open spec fn fits_i64(x: int) -> bool {
    i64::MIN <= x <= i64::MAX
}

/// Every intermediate value of the gap count fits in `i64`: the shifted AniList total when it
/// is computed, and each step of the final difference.
pub open spec fn gap_arithmetic_fits(
    min_int_ep: int,
    max_int_ep: int,
    int_ep_count: int,
    anilist_episodes: Option<i64>,
    anilist_status: Option<Seq<char>>,
    tracker_offset: int,
) -> bool {
    let em = effective_max_episode(max_int_ep, anilist_episodes, anilist_status, tracker_offset);
    &&& !is_releasing(anilist_status) ==> match anilist_episodes {
        Some(ae) => ae > 0 ==> fits_i64(ae + tracker_offset),
        None => true,
    }
    &&& fits_i64(em - min_int_ep)
    &&& fits_i64(em - min_int_ep + 1)
    &&& fits_i64(em - min_int_ep + 1 - int_ep_count)
}

/// Counts the gaps in the integer episode numbers of a title.
pub fn compute_gap_episode_count(
    min_int_ep: i64,
    max_int_ep: i64,
    int_ep_count: i64,
    anilist_cached_episodes: Option<i64>,
    anilist_cached_status: Option<&str>,
    tracker_offset: i64,
) -> (r: i64)
    requires
        gap_arithmetic_fits(
            min_int_ep as int,
            max_int_ep as int,
            int_ep_count as int,
            anilist_cached_episodes,
            anilist_cached_status.deep_view(),
            tracker_offset as int,
        ),
    ensures
        r == gap_count(
            min_int_ep as int,
            max_int_ep as int,
            int_ep_count as int,
            anilist_cached_episodes,
            anilist_cached_status.deep_view(),
            tracker_offset as int,
        ),
{
    let releasing = match anilist_cached_status {
        Some(status) => {
            let low = lower_chars(&chars_of(status));
            crate::text::eq_str(&low, "releasing")
        },
        None => false,
    };
    let effective_max = if !releasing {
        match anilist_cached_episodes {
            Some(ae) => if ae > 0 && ae + tracker_offset > max_int_ep {
                ae + tracker_offset
            } else {
                max_int_ep
            },
            None => max_int_ep,
        }
    } else {
        max_int_ep
    };
    effective_max - min_int_ep + 1 - int_ep_count
}

// ---------------------------------------------------------------------------------------------
// Preferred episode folder
// ---------------------------------------------------------------------------------------------

/// How many of the paths lie under `folder` (component-wise).
pub open spec fn count_under(folder: Seq<char>, paths: Seq<Seq<char>>) -> nat
    decreases paths.len(),
{
    if paths.len() == 0 {
        0
    } else {
        count_under(folder, paths.drop_last()) + if path_starts_with(paths.last(), folder) {
            1nat
        } else {
            0nat
        }
    }
}

/// The texts of a list of paths.
pub open spec fn path_texts(paths: Seq<String>) -> Seq<Seq<char>> {
    paths.map_values(|p: String| p@)
}

/// Folder `a` is preferred over folder `b`: more episodes under it, or as many and a shorter
/// path.
pub open spec fn folder_better(a: Seq<char>, b: Seq<char>, paths: Seq<Seq<char>>) -> bool {
    count_under(a, paths) > count_under(b, paths) || (count_under(a, paths) == count_under(
        b,
        paths,
    ) && shorter_path(a, b))
}

/// `f` is the parent of one of the paths.
pub open spec fn is_candidate_folder(f: Seq<char>, paths: Seq<Seq<char>>) -> bool {
    exists|i: int| 0 <= i < paths.len() && parent_text(#[trigger] paths[i]) == Some(f)
}

proof fn lemma_count_under_le(folder: Seq<char>, paths: Seq<Seq<char>>)
    ensures
        count_under(folder, paths) <= paths.len(),
    decreases paths.len(),
{
    if paths.len() > 0 {
        lemma_count_under_le(folder, paths.drop_last());
    }
}

/// Number of episode paths that lie under `folder`.
pub fn count_episodes_under_folder(folder: &str, episode_paths: &[String]) -> (r: usize)
    ensures
        r == count_under(folder@, path_texts(episode_paths@)),
{
    let f = chars_of(folder);
    let ghost ps = path_texts(episode_paths@);
    let mut n: usize = 0;
    let mut i: usize = 0;
    while i < episode_paths.len()
        invariant
            i <= episode_paths.len(),
            f@ == folder@,
            ps == path_texts(episode_paths@),
            n == count_under(folder@, ps.take(i as int)),
            n <= i,
        decreases episode_paths.len() - i,
    {
        let p = chars_of(episode_paths[i].as_str());
        assert(ps.take(i + 1).drop_last() =~= ps.take(i as int));
        assert(ps.take(i + 1).last() == p@);
        if path_starts_with_chars(&p, &f) {
            n = n + 1;
        }
        i = i + 1;
    }
    assert(ps.take(episode_paths.len() as int) =~= ps);
    n
}

/// Among the parent folders of the episode paths, the one holding the most episodes
/// (recursively); ties go to the shorter path, then the lexicographically smaller one.
pub fn pick_preferred_episode_folder(episode_paths: &[String]) -> (r: Option<String>)
    ensures
        match r {
            Some(f) => is_candidate_folder(f@, path_texts(episode_paths@)) && forall|i: int|
                0 <= i < episode_paths@.len() ==> (parent_text(
                    #[trigger] path_texts(episode_paths@)[i],
                ) matches Some(d) ==> d == f@ || folder_better(
                    f@,
                    d,
                    path_texts(episode_paths@),
                )),
            None => forall|i: int|
                0 <= i < episode_paths@.len() ==> parent_text(
                    #[trigger] path_texts(episode_paths@)[i],
                ) is None,
        },
{
    let ghost ps = path_texts(episode_paths@);
    let mut best: Option<Vec<char>> = None;
    let mut best_count: usize = 0;
    let mut i: usize = 0;
    while i < episode_paths.len()
        invariant
            i <= episode_paths.len(),
            ps == path_texts(episode_paths@),
            match best {
                Some(b) => is_candidate_folder(b@, ps) && best_count == count_under(b@, ps)
                    && forall|j: int|
                    0 <= j < i ==> (parent_text(#[trigger] ps[j]) matches Some(d) ==> d == b@
                        || folder_better(b@, d, ps)),
                None => forall|j: int| 0 <= j < i ==> parent_text(#[trigger] ps[j]) is None,
            },
        decreases episode_paths.len() - i,
    {
        let p = chars_of(episode_paths[i].as_str());
        assert(ps[i as int] == p@);
        match parent_chars(&p) {
            Some(cand) => {
                let count = count_episodes_under_folder(string_of(&cand).as_str(), episode_paths);
                let replace = match &best {
                    None => true,
                    Some(cur) => count > best_count || (count == best_count && shorter_chars(
                        &cand,
                        cur,
                    )),
                };
                if replace {
                    proof {
                        if let Some(b) = best {
                            assert forall|j: int|
                                0 <= j <= i implies (parent_text(#[trigger] ps[j]) matches Some(
                                    d,
                                ) ==> d == cand@ || folder_better(cand@, d, ps)) by {
                                if let Some(d) = parent_text(ps[j]) {
                                    if j < i {
                                        lemma_shorter_path_order(cand@, b@, d);
                                    }
                                }
                            }
                        }
                    }
                    best = Some(cand);
                    best_count = count;
                } else {
                    proof {
                        let b = best.unwrap();
                        lemma_shorter_path_order(cand@, b@, b@);
                        assert(parent_text(ps[i as int]) == Some(cand@));
                        assert(cand@ == b@ || folder_better(b@, cand@, ps));
                    }
                }
            },
            None => {},
        }
        i = i + 1;
    }
    match best {
        Some(b) => Some(string_of(&b)),
        None => None,
    }
}

// ---------------------------------------------------------------------------------------------
// Root folders
// ---------------------------------------------------------------------------------------------

/// Root `k` is the longest (by bytes) root that `path` lies under; among equally long ones, the
/// last in the list.
pub open spec fn is_matching_root(path: Seq<char>, roots: Seq<Seq<char>>, k: int) -> bool {
    &&& 0 <= k < roots.len()
    &&& path_starts_with(path, roots[k])
    &&& forall|j: int|
        0 <= j < roots.len() && path_starts_with(path, #[trigger] roots[j]) ==> utf8_len(roots[j])
            <= utf8_len(roots[k])
    &&& forall|j: int|
        k < j < roots.len() && path_starts_with(path, #[trigger] roots[j]) ==> utf8_len(roots[j])
            < utf8_len(roots[k])
}

/// The index of the configured root folder that holds `path` most specifically.
pub fn matching_root_folder(path: &str, roots: &[String]) -> (r: Option<usize>)
    ensures
        match r {
            Some(k) => is_matching_root(path@, path_texts(roots@), k as int),
            None => forall|j: int|
                0 <= j < roots@.len() ==> !path_starts_with(path@, #[trigger] path_texts(roots@)[j]),
        },
{
    let ghost rs = path_texts(roots@);
    let p = chars_of(path);
    let mut best: Option<usize> = None;
    let mut best_len: u128 = 0;
    let mut i: usize = 0;
    while i < roots.len()
        invariant
            i <= roots.len(),
            rs == path_texts(roots@),
            p@ == path@,
            match best {
                Some(k) => k < i && path_starts_with(path@, rs[k as int]) && best_len == utf8_len(
                    rs[k as int],
                ) && (forall|j: int|
                    0 <= j < i && path_starts_with(path@, #[trigger] rs[j]) ==> utf8_len(rs[j])
                        <= best_len) && (forall|j: int|
                    k < j < i && path_starts_with(path@, #[trigger] rs[j]) ==> utf8_len(rs[j])
                        < best_len),
                None => forall|j: int| 0 <= j < i ==> !path_starts_with(path@, #[trigger] rs[j]),
            },
        decreases roots.len() - i,
    {
        let root = chars_of(roots[i].as_str());
        assert(rs[i as int] == root@);
        if path_starts_with_chars(&p, &root) {
            let len = utf8_len_of(&root);
            let take = match best {
                None => true,
                Some(_) => len >= best_len,
            };
            if take {
                best = Some(i);
                best_len = len;
            }
        }
        i = i + 1;
    }
    best
}

// ---------------------------------------------------------------------------------------------
// Renames
// ---------------------------------------------------------------------------------------------

/// Characters a title cannot hold, because it becomes a Windows folder name.
pub open spec fn forbidden_in_title(c: char) -> bool {
    is_control(c) || c == '<' || c == '>' || c == ':' || c == '"' || c == '/' || c == '\\' || c
        == '|' || c == '?' || c == '*'
}

/// The message for an empty rename title.
pub open spec fn empty_title_message() -> Seq<char> {
    "Anime title cannot be empty."@
}

/// The message for a rename title holding a forbidden character.
pub open spec fn forbidden_title_message() -> Seq<char> {
    "Anime title cannot contain Windows filename characters: < > : \" / \\ | ? *"@
}

/// A new anime title, trimmed; refused when empty or when it holds a character that Windows
/// forbids in folder names.
pub fn normalize_anime_rename_title(title: &str) -> (r: Result<String, String>)
    ensures
        trim(title@).len() == 0 ==> (r matches Err(e) && e@ == empty_title_message()),
        trim(title@).len() > 0 && (exists|i: int|
            0 <= i < trim(title@).len() && forbidden_in_title(#[trigger] trim(title@)[i]))
            ==> (r matches Err(e) && e@ == forbidden_title_message()),
        trim(title@).len() > 0 && (forall|i: int|
            0 <= i < trim(title@).len() ==> !forbidden_in_title(#[trigger] trim(title@)[i]))
            ==> (r matches Ok(s) && s@ == trim(title@)),
{
    let t = trim_chars(&chars_of(title));
    if t.len() == 0 {
        return Err(string_from("Anime title cannot be empty."));
    }
    let mut i: usize = 0;
    while i < t.len()
        invariant
            i <= t.len(),
            t@ == trim(title@),
            forall|j: int| 0 <= j < i ==> !forbidden_in_title(#[trigger] t@[j]),
        decreases t.len() - i,
    {
        let c = t[i];
        if char_is_control(c) || c == '<' || c == '>' || c == ':' || c == '"' || c == '/' || c
            == '\\' || c == '|' || c == '?' || c == '*' {
            assert(forbidden_in_title(t@[i as int]));
            return Err(
                string_from(
                    "Anime title cannot contain Windows filename characters: < > : \" / \\ | ? *",
                ),
            );
        }
        i = i + 1;
    }
    Ok(string_of(&t))
}

/// The path of a renamed file relative to its root, with `/` separators; `fallback` (with `/`
/// separators) when the path is not under the root.
pub fn renamed_relative_path(path: &str, root_folder: &str, fallback: &str) -> (r: String)
    ensures
        r@ == (if path_starts_with(path@, root_folder@) {
            join(components(path@).skip(components(root_folder@).len() as int), seq!['/'])
        } else {
            replace_char(fallback@, '\\', '/')
        }),
{
    let p = chars_of(path);
    let root = chars_of(root_folder);
    if path_starts_with_chars(&p, &root) {
        let pc = components_of(&p);
        let n = components_of(&root).len();
        let mut rest: Vec<Vec<char>> = Vec::new();
        let mut i: usize = n;
        while i < pc.len()
            invariant
                n <= i <= pc.len(),
                vviews(rest@) == vviews(pc@).subrange(n as int, i as int),
            decreases pc.len() - i,
        {
            let w = slice_chars(&pc[i], 0, pc[i].len());
            let ghost before = vviews(rest@);
            assert(w@ =~= pc@[i as int]@);
            rest.push(w);
            assert(vviews(rest@) =~= before.push(pc@[i as int]@));
            assert(vviews(pc@).subrange(n as int, i + 1) =~= vviews(pc@).subrange(n as int, i as int).push(pc@[i as int]@));
            i = i + 1;
        }
        assert(vviews(pc@).subrange(n as int, pc.len() as int) =~= vviews(pc@).skip(n as int));
        let mut sep: Vec<char> = Vec::new();
        sep.push('/');
        assert(sep@ =~= seq!['/']);
        string_of(&join_chars(&rest, &sep))
    } else {
        let f = chars_of(fallback);
        string_of(&replace_chars(&f, '\\', '/'))
    }
}

// ---------------------------------------------------------------------------------------------
// Detection rule input
// ---------------------------------------------------------------------------------------------

/// What is wrong with a detection rule as entered, checked in order: name, presence of both
/// patterns (trimmed), that each compiles, and that the title pattern has a group called
/// `title`.
pub open spec fn rule_input_problem(input: RegexRuleInput) -> Option<Seq<char>> {
    let d = trim(input.detection_regex@);
    let t = trim(input.title_regex@);
    if trim(input.name@).len() == 0 {
        Some("Detection rule name cannot be empty."@)
    } else if d.len() == 0 || t.len() == 0 {
        Some("Detection and title regexes are required."@)
    } else if !regex_compiles(d) {
        Some("Invalid detection regex: "@ + regex_error_text(d))
    } else if !regex_compiles(t) {
        Some("Invalid title regex: "@ + regex_error_text(t))
    } else if !regex_capture_names(t).contains(Some("title"@)) {
        Some("Title regex must include a named capture group called `title`."@)
    } else {
        None
    }
}

fn prefixed(prefix: &str, rest: &String) -> (r: String)
    ensures
        r@ == prefix@ + rest@,
{
    let mut v = chars_of(prefix);
    crate::text::append_str(&mut v, rest.as_str());
    string_of(&v)
}

/// Checks a detection rule before it is stored.
pub fn validate_regex_rule_input(input: &RegexRuleInput) -> (r: Result<(), String>)
    ensures
        match rule_input_problem(*input) {
            None => r is Ok,
            Some(m) => r matches Err(e) && e@ == m,
        },
{
    if trim_chars(&chars_of(input.name.as_str())).len() == 0 {
        return Err(string_from("Detection rule name cannot be empty."));
    }
    let d = string_of(&trim_chars(&chars_of(input.detection_regex.as_str())));
    let t = string_of(&trim_chars(&chars_of(input.title_regex.as_str())));
    if chars_of(d.as_str()).len() == 0 || chars_of(t.as_str()).len() == 0 {
        return Err(string_from("Detection and title regexes are required."));
    }
    match CompiledPattern::compile(d.as_str()) {
        Ok(_) => {},
        Err(e) => {
            return Err(prefixed("Invalid detection regex: ", &e));
        },
    }
    let title = match CompiledPattern::compile(t.as_str()) {
        Ok(p) => p,
        Err(e) => {
            return Err(prefixed("Invalid title regex: ", &e));
        },
    };
    let names = title.capture_names();
    let ghost ns = opt_texts(names@);
    proof {
        reveal_strlit("title");
    }
    let mut i: usize = 0;
    while i < names.len()
        invariant
            i <= names.len(),
            ns == opt_texts(names@),
            ns.len() == names@.len(),
            ns == regex_capture_names(trim(input.title_regex@)),
            trim(input.name@).len() > 0,
            trim(input.detection_regex@).len() > 0,
            trim(input.title_regex@).len() > 0,
            regex_compiles(trim(input.detection_regex@)),
            regex_compiles(trim(input.title_regex@)),
            forall|j: int| 0 <= j < i ==> ns[j] != Some("title"@),
        decreases names.len() - i,
    {
        match &names[i] {
            Some(n) => {
                if eq_str(&chars_of(n.as_str()), "title") {
                    assert(ns[i as int] == Some("title"@));
                    assert(ns.contains(Some("title"@)));
                    return Ok(());
                }
            },
            None => {},
        }
        i = i + 1;
    }
    assert(!ns.contains(Some("title"@)));
    Err(string_from("Title regex must include a named capture group called `title`."))
}

// ---------------------------------------------------------------------------------------------
// Bulk rename requests
// ---------------------------------------------------------------------------------------------

/// `Path::is_absolute` on Windows: a drive letter, a colon and a separator, or two leading
/// separators (a UNC, device or verbatim prefix).
pub open spec fn is_windows_absolute(p: Seq<char>) -> bool {
    (p.len() >= 3 && crate::text::is_ascii_alpha(p[0]) && p[1] == ':' && crate::paths::is_path_sep(
        p[2],
    )) || (p.len() >= 2 && crate::paths::is_path_sep(p[0]) && crate::paths::is_path_sep(p[1]))
}

fn is_windows_absolute_exec(p: &Vec<char>) -> (r: bool)
    ensures
        r == is_windows_absolute(p@),
{
    (p.len() >= 3 && crate::text::char_is_ascii_alpha(p[0]) && p[1] == ':' && (p[2] == '/' || p[2]
        == '\\')) || (p.len() >= 2 && (p[0] == '/' || p[0] == '\\') && (p[1] == '/' || p[1]
        == '\\'))
}

/// The first root (in order) that holds the path, by whole components.
pub open spec fn first_root_holding(path: Seq<char>, roots: Seq<Seq<char>>) -> Option<int> {
    if exists|k: int| 0 <= k < roots.len() && path_starts_with(path, #[trigger] roots[k]) {
        Some(
            choose|k: int|
                0 <= k < roots.len() && path_starts_with(path, roots[k]) && forall|j: int|
                    0 <= j < k ==> !path_starts_with(path, #[trigger] roots[j]),
        )
    } else {
        None
    }
}

/// What is wrong with one request of a bulk rename, given the keys of the sources and
/// destinations already accepted, checked in order: the path must change, both paths must be
/// absolute, the source must lie in a root folder, the change must not be one of letter case
/// only, and neither path may repeat one of the batch.
pub open spec fn rename_request_problem(
    old_path: Seq<char>,
    new_path: Seq<char>,
    roots: Seq<Seq<char>>,
    sources: Seq<Seq<char>>,
    destinations: Seq<Seq<char>>,
) -> Option<Seq<char>> {
    if old_path == new_path {
        Some("Rename request does not change the path: "@ + old_path)
    } else if !is_windows_absolute(old_path) {
        Some("Source path is not absolute: "@ + old_path)
    } else if !is_windows_absolute(new_path) {
        Some("Destination path is not absolute: "@ + new_path)
    } else if first_root_holding(old_path, roots) is None {
        Some("Source file is not inside a configured root folder: "@ + old_path)
    } else if windows_key(old_path) == windows_key(new_path) {
        Some("Case-only renames are not supported in bulk mode: "@ + old_path)
    } else if sources.contains(windows_key(old_path)) {
        Some("Duplicate source path in rename request: "@ + old_path)
    } else if destinations.contains(windows_key(new_path)) {
        Some("Multiple files would be renamed to the same destination: "@ + new_path)
    } else {
        None
    }
}

fn keys_contain(keys: &Vec<String>, key: &Vec<char>) -> (r: bool)
    ensures
        r == crate::text_set::texts(keys@).contains(key@),
{
    let ghost ks = crate::text_set::texts(keys@);
    let mut i: usize = 0;
    while i < keys.len()
        invariant
            i <= keys@.len(),
            ks == crate::text_set::texts(keys@),
            forall|j: int| 0 <= j < i ==> ks[j] != key@,
        decreases keys@.len() - i,
    {
        let c = chars_of(keys[i].as_str());
        assert(ks[i as int] == keys@[i as int]@);
        if eq_chars(&c, key) {
            return true;
        }
        i = i + 1;
    }
    false
}

/// Checks one request of a bulk rename against the configured roots and the keys
/// (`windows_path_key`) of the sources and destinations accepted before it; returns the
/// position of the root folder that holds the source.
pub fn check_rename_request(
    request: &RenameFileRequest,
    roots: &[String],
    sources: &Vec<String>,
    destinations: &Vec<String>,
) -> (r: Result<usize, String>)
    ensures
        match rename_request_problem(
            request.old_path@,
            request.new_path@,
            path_texts(roots@),
            crate::text_set::texts(sources@),
            crate::text_set::texts(destinations@),
        ) {
            Some(m) => r matches Err(e) && e@ == m,
            None => r matches Ok(k) && first_root_holding(request.old_path@, path_texts(roots@))
                == Some(k as int),
        },
{
    let old_p = chars_of(request.old_path.as_str());
    let new_p = chars_of(request.new_path.as_str());
    if eq_chars(&old_p, &new_p) {
        return Err(prefixed("Rename request does not change the path: ", &request.old_path));
    }
    if !is_windows_absolute_exec(&old_p) {
        return Err(prefixed("Source path is not absolute: ", &request.old_path));
    }
    if !is_windows_absolute_exec(&new_p) {
        return Err(prefixed("Destination path is not absolute: ", &request.new_path));
    }
    let ghost rs = path_texts(roots@);
    let mut k: usize = 0;
    let mut found: Option<usize> = None;
    while found.is_none() && k < roots.len()
        invariant
            k <= roots@.len(),
            rs == path_texts(roots@),
            rs.len() == roots@.len(),
            old_p@ == request.old_path@,
            forall|j: int| 0 <= j < k ==> !path_starts_with(old_p@, #[trigger] rs[j]),
            found matches Some(f) ==> f == k && k < rs.len() && path_starts_with(old_p@, rs[f as int]),
        decreases roots@.len() - k + if found is None {
            1int
        } else {
            0int
        },
    {
        let rc = chars_of(roots[k].as_str());
        assert(rs[k as int] == roots@[k as int]@);
        if crate::paths::path_starts_with_chars(&old_p, &rc) {
            found = Some(k);
        } else {
            k = k + 1;
        }
    }
    let root = match found {
        Some(f) => f,
        None => {
            proof {
                assert(!(exists|j: int| 0 <= j < rs.len() && path_starts_with(old_p@, #[trigger] rs[j])));
            }
            return Err(
                prefixed("Source file is not inside a configured root folder: ", &request.old_path),
            );
        },
    };
    proof {
        assert(path_starts_with(old_p@, rs[root as int]));
        let c = choose|c: int|
            0 <= c < rs.len() && path_starts_with(old_p@, rs[c]) && forall|j: int|
                0 <= j < c ==> !path_starts_with(old_p@, #[trigger] rs[j]);
        if c < root {
        } else if c > root {
            assert(!path_starts_with(old_p@, rs[root as int]));
        }
    }
    let old_key = crate::paths::windows_key_chars(&old_p);
    let new_key = crate::paths::windows_key_chars(&new_p);
    if eq_chars(&old_key, &new_key) {
        return Err(
            prefixed("Case-only renames are not supported in bulk mode: ", &request.old_path),
        );
    }
    if keys_contain(sources, &old_key) {
        return Err(prefixed("Duplicate source path in rename request: ", &request.old_path));
    }
    if keys_contain(destinations, &new_key) {
        return Err(
            prefixed(
                "Multiple files would be renamed to the same destination: ",
                &request.new_path,
            ),
        );
    }
    Ok(root)
}

/// A planned destination that already exists on disk may only be one of the batch's sources
/// (which are moved away first).
pub fn check_existing_destination(new_path: &String, exists: bool, sources: &Vec<String>) -> (r:
    Result<(), String>)
    ensures
        (exists && !crate::text_set::texts(sources@).contains(windows_key(new_path@))) ==> (
        r matches Err(e) && e@ == "Destination already exists outside the rename set: "@
            + new_path@),
        !(exists && !crate::text_set::texts(sources@).contains(windows_key(new_path@))) ==> r is Ok,
{
    if exists {
        let key = crate::paths::windows_key_chars(&chars_of(new_path.as_str()));
        if !keys_contain(sources, &key) {
            return Err(prefixed("Destination already exists outside the rename set: ", new_path));
        }
    }
    Ok(())
}

/// A destination that the library already records for another episode or unmatched file may
/// only be one of the batch's sources.
pub fn check_recorded_destination(recorded: Option<&String>, owner: &str, sources: &Vec<String>) -> (r:
    Result<(), String>)
    ensures
        match recorded {
            Some(p) => if crate::text_set::texts(sources@).contains(windows_key(p@)) {
                r is Ok
            } else {
                r matches Err(e) && e@ == "Destination already belongs to another "@ + owner@
                    + ": "@ + p@
            },
            None => r is Ok,
        },
{
    match recorded {
        Some(p) => {
            let key = crate::paths::windows_key_chars(&chars_of(p.as_str()));
            if keys_contain(sources, &key) {
                Ok(())
            } else {
                let mut v = chars_of("Destination already belongs to another ");
                crate::text::append_str(&mut v, owner);
                crate::text::append_str(&mut v, ": ");
                crate::text::append_str(&mut v, p.as_str());
                Err(string_of(&v))
            }
        },
        None => Ok(()),
    }
}

// ---------------------------------------------------------------------------------------------
// Deletion tallies
// ---------------------------------------------------------------------------------------------

/// What became of one file that a deletion asked to remove.
pub enum FileRemoval {
    /// The file was already gone; its record is dropped all the same.
    Missing,
    /// The file was removed, `bytes` long: moved to the recycle bin, or deleted outright
    /// (`permanent`).
    Removed { bytes: u64, permanent: bool },
    /// The file could not be removed; its record stays.
    Failed,
}

/// One episode of a deletion: the bytes its cached previews freed, and what became of its file.
pub struct EpisodeRemoval {
    pub cache_bytes: u64,
    pub file: FileRemoval,
}

/// The bytes a removal freed.
pub open spec fn freed_bytes(f: FileRemoval) -> nat {
    match f {
        FileRemoval::Removed { bytes, .. } => bytes as nat,
        _ => 0,
    }
}

/// Whether a removal deleted the file outright rather than moving it to the recycle bin.
pub open spec fn deleted_outright(f: FileRemoval) -> bool {
    match f {
        FileRemoval::Removed { permanent, .. } => permanent,
        _ => false,
    }
}

/// Episodes whose record goes: those removed and those already gone.
pub open spec fn removed_count(es: Seq<EpisodeRemoval>) -> nat
    decreases es.len(),
{
    if es.len() == 0 {
        0
    } else {
        removed_count(es.drop_last()) + if es.last().file is Failed {
            0nat
        } else {
            1nat
        }
    }
}

/// Episodes whose file could not be removed.
pub open spec fn failed_count(es: Seq<EpisodeRemoval>) -> nat
    decreases es.len(),
{
    if es.len() == 0 {
        0
    } else {
        failed_count(es.drop_last()) + if es.last().file is Failed {
            1nat
        } else {
            0nat
        }
    }
}

/// All bytes freed: cached previews and removed files.
pub open spec fn total_freed(es: Seq<EpisodeRemoval>) -> nat
    decreases es.len(),
{
    if es.len() == 0 {
        0
    } else {
        total_freed(es.drop_last()) + es.last().cache_bytes as nat + freed_bytes(es.last().file)
    }
}

/// Whether some file was deleted outright rather than moved to the recycle bin.
pub open spec fn any_permanent(es: Seq<EpisodeRemoval>) -> bool
    decreases es.len(),
{
    if es.len() == 0 {
        false
    } else {
        any_permanent(es.drop_last()) || deleted_outright(es.last().file)
    }
}

proof fn lemma_counts_bounded(es: Seq<EpisodeRemoval>)
    ensures
        removed_count(es) + failed_count(es) == es.len(),
    decreases es.len(),
{
    if es.len() > 0 {
        lemma_counts_bounded(es.drop_last());
    }
}

proof fn lemma_freed_monotone(es: Seq<EpisodeRemoval>, i: int)
    requires
        0 <= i <= es.len(),
    ensures
        total_freed(es.take(i)) <= total_freed(es),
    decreases es.len() - i,
{
    if i < es.len() {
        lemma_freed_monotone(es, i + 1);
        assert(es.take(i + 1).drop_last() =~= es.take(i));
    } else {
        assert(es.take(i) =~= es);
    }
}

/// The summary of deleting episode files, before any cover image is handled: how many records
/// go, how many files failed, the bytes freed and whether a file was deleted outright.
pub fn tally_episode_removals(episodes: &[EpisodeRemoval]) -> (r: DeleteAnimeFilesSummary)
    requires
        total_freed(episodes@) <= u64::MAX,
        episodes@.len() <= i64::MAX,
    ensures
        r.episodes_deleted == removed_count(episodes@),
        r.episodes_failed == failed_count(episodes@),
        r.bytes_deleted == total_freed(episodes@),
        r.permanent_delete_used == any_permanent(episodes@),
        !r.cover_deleted,
        !r.cover_failed,
{
    let ghost es = episodes@;
    let mut deleted: i64 = 0;
    let mut failed: i64 = 0;
    let mut bytes: u64 = 0;
    let mut permanent_used = false;
    let mut i: usize = 0;
    while i < episodes.len()
        invariant
            i <= es.len(),
            es == episodes@,
            total_freed(es) <= u64::MAX,
            es.len() <= i64::MAX,
            deleted == removed_count(es.take(i as int)),
            failed == failed_count(es.take(i as int)),
            bytes == total_freed(es.take(i as int)),
            permanent_used == any_permanent(es.take(i as int)),
        decreases es.len() - i,
    {
        proof {
            assert(es.take(i + 1).drop_last() =~= es.take(i as int));
            lemma_counts_bounded(es.take(i + 1));
            lemma_freed_monotone(es, i + 1);
        }
        let e = &episodes[i];
        bytes = bytes + e.cache_bytes;
        match &e.file {
            FileRemoval::Missing => {
                deleted = deleted + 1;
            },
            FileRemoval::Removed { bytes: b, permanent } => {
                deleted = deleted + 1;
                bytes = bytes + *b;
                permanent_used = permanent_used || *permanent;
            },
            FileRemoval::Failed => {
                failed = failed + 1;
            },
        }
        i = i + 1;
    }
    proof {
        assert(es.take(es.len() as int) =~= es);
    }
    DeleteAnimeFilesSummary {
        episodes_deleted: deleted,
        episodes_failed: failed,
        bytes_deleted: bytes,
        cover_deleted: false,
        cover_failed: false,
        permanent_delete_used: permanent_used,
    }
}

/// Records what became of the cover image; returns whether its recorded path is to be cleared
/// (the cover was removed or was already gone).
pub fn record_cover_removal(summary: &mut DeleteAnimeFilesSummary, cover: &FileRemoval) -> (r:
    bool)
    requires
        old(summary).bytes_deleted + freed_bytes(*cover) <= u64::MAX,
    ensures
        r == !(cover is Failed),
        final(summary).bytes_deleted == old(summary).bytes_deleted + freed_bytes(*cover),
        final(summary).cover_deleted == (old(summary).cover_deleted || cover is Removed),
        final(summary).cover_failed == (old(summary).cover_failed || cover is Failed),
        final(summary).permanent_delete_used == (old(summary).permanent_delete_used
            || deleted_outright(*cover)),
        final(summary).episodes_deleted == old(summary).episodes_deleted,
        final(summary).episodes_failed == old(summary).episodes_failed,
{
    match cover {
        FileRemoval::Missing => true,
        FileRemoval::Removed { bytes, permanent } => {
            summary.bytes_deleted = summary.bytes_deleted + *bytes;
            summary.cover_deleted = true;
            summary.permanent_delete_used = summary.permanent_delete_used || *permanent;
            true
        },
        FileRemoval::Failed => {
            summary.cover_failed = true;
            false
        },
    }
}

/// Whether deleting an anime's files takes the anime out of the library: no file failed and
/// every deletable episode went.
pub fn removes_whole_anime(summary: &DeleteAnimeFilesSummary, deletable: usize) -> (r: bool)
    ensures
        r == (summary.episodes_failed == 0 && summary.episodes_deleted == deletable),
{
    summary.episodes_failed == 0 && summary.episodes_deleted >= 0 && summary.episodes_deleted as u64 == deletable as u64
}


// ---------------------------------------------------------------------------------------------
// Renaming a title
// ---------------------------------------------------------------------------------------------

/// What renaming a title to `new_title` decides before any file is looked at: the new title
/// must have a non-empty key; renaming to the same title and key changes nothing; a key that
/// another title already uses (`other_with_key`, the id of that title) is refused.
pub open spec fn anime_rename_outcome(
    current_title: Seq<char>,
    current_key: Seq<char>,
    new_title: Seq<char>,
    other_with_key: Option<i64>,
) -> Result<bool, Seq<char>> {
    let key = crate::scanner::title_group_key(new_title);
    if key.len() == 0 {
        Err("Anime title cannot be empty."@)
    } else if current_title == new_title && current_key == key {
        Ok(false)
    } else {
        match other_with_key {
            Some(id) => Err(
                "Another anime already uses the title \""@ + new_title + "\" (id "@
                    + crate::text::int_text(id as int) + ")."@,
            ),
            None => Ok(true),
        }
    }
}

/// Decides whether a title can be renamed: `Ok(true)` when its files are to be renamed,
/// `Ok(false)` when nothing changes, or the error.
pub fn anime_rename_decision(
    current_title: &str,
    current_title_key: &str,
    new_title: &str,
    other_with_key: Option<i64>,
) -> (r: Result<bool, String>)
    ensures
        match anime_rename_outcome(current_title@, current_title_key@, new_title@, other_with_key) {
            Ok(b) => r == Ok::<bool, String>(b),
            Err(m) => r matches Err(e) && e@ == m,
        },
{
    let key = crate::scanner::title_key(new_title);
    let key_chars = chars_of(key.as_str());
    if key_chars.len() == 0 {
        return Err(string_from("Anime title cannot be empty."));
    }
    if eq_chars(&chars_of(current_title), &chars_of(new_title)) && eq_chars(
        &chars_of(current_title_key),
        &key_chars,
    ) {
        return Ok(false);
    }
    match other_with_key {
        Some(id) => {
            let mut v = chars_of("Another anime already uses the title \"");
            crate::text::append_str(&mut v, new_title);
            crate::text::append_str(&mut v, "\" (id ");
            let d = crate::text::i64_text(id);
            crate::text::append_chars(&mut v, &d);
            crate::text::append_str(&mut v, ").");
            Err(string_of(&v))
        },
        None => Ok(true),
    }
}

} // verus!
