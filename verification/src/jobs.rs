//! Background job model: priorities, resource pools, enqueue results, and the scheduling
//! decisions of the job manager (which queued job starts next, and whether it may start).
use vstd::prelude::*;

use crate::text::{
    append_str, chars_of, eq_str, string_from, string_of, trim, trim_chars, parse_u32_chars,
    parse_u32_spec,
};
use crate::paths::{file_name_chars, file_name_text};

verus! {

#[derive(PartialEq, Eq, Structural, Clone, Copy)]
pub enum JobPriority {
    Low,
    Medium,
    High,
}

#[derive(PartialEq, Eq, Structural, Clone, Copy)]
pub enum JobStatus {
    Queued,
    Running,
    Done,
    Failed,
    Canceled,
}

/// Resource pool for parallel scheduling (`None` = only the global cap applies).
#[derive(PartialEq, Eq, Structural, Clone, Copy)]
pub enum JobResourceType {
    Unpooled,
    Ffmpeg,
    Chroma,
}

pub struct JobProgress {
    pub current_step: u32,
    pub total_steps: u32,
}

pub struct JobPrerequisiteView {
    pub job_id: String,
    pub short_id: u32,
}

pub struct JobView {
    pub id: String,
    /// Short numeric label shown in the UI (e.g. `#42`).
    pub short_id: u32,
    pub name: String,
    pub desc: String,
    pub identity: String,
    pub job_type: String,
    pub resource_type: JobResourceType,
    pub priority: JobPriority,
    pub status: JobStatus,
    pub cancelable: bool,
    pub progress: JobProgress,
    pub step_label: String,
    pub completion_message: Option<String>,
    pub created_at: u64,
    pub started_at: Option<u64>,
    pub finished_at: Option<u64>,
    /// Prerequisite jobs still queued or running (completed ones are omitted).
    pub waiting_for: Vec<JobPrerequisiteView>,
    /// Total prerequisites registered at enqueue time.
    pub prerequisite_total: u32,
    /// Prerequisites still queued or running.
    pub prerequisite_pending: u32,
    /// Queued-job progress: two steps per prerequisite (start + complete).
    pub prerequisite_progress_current: u32,
    pub prerequisite_progress_total: u32,
}

pub struct TypeMaxParallel {
    pub resource_type: String,
    pub max_parallel: u32,
}

pub struct JobsSnapshot {
    pub active: Vec<JobView>,
    pub history: Vec<JobView>,
    pub max_parallel: u32,
    pub type_max_parallel: Vec<TypeMaxParallel>,
    pub active_count: u32,
}

pub struct EnqueueJobResult {
    pub job_id: Option<String>,
    /// The job was not queued because the work is already satisfied (e.g. cached sprite).
    pub skipped: bool,
    /// Detect was skipped because manual templates own skip matching; only chroma was queued.
    pub chroma_only: bool,
}

pub struct JobFinishedEvent {
    pub job_id: String,
    pub identity: String,
    pub job_type: String,
    pub status: JobStatus,
}

pub struct EnqueueScrubSpriteJob {
    pub path: String,
    pub priority: JobPriority,
    pub anime_title: Option<String>,
    pub episode_label: Option<String>,
    pub follow_up: Vec<EnqueueScrubSpriteJob>,
}

/// One request for the episode page scrub queue.
pub struct EpisodePageScrubItem {
    pub path: String,
    pub episode_label: Option<String>,
}

pub struct EnqueueEpisodePageScrubSprites {
    pub priority: JobPriority,
    pub anime_title: Option<String>,
    pub episodes: Vec<EpisodePageScrubItem>,
}

pub struct EnqueueOpEdDetectJob {
    pub anime_id: i64,
    pub priority: JobPriority,
    pub anime_title: Option<String>,
}

pub struct EnqueueOpEdChromaAnimeJob {
    pub anime_id: i64,
    pub priority: JobPriority,
    pub anime_title: Option<String>,
}

pub struct EnqueueOpEdChromaEpisodeJob {
    pub episode_id: i64,
    pub priority: JobPriority,
    pub anime_title: Option<String>,
}

/// Episode newly imported during a library rescan (automatic scrub enqueue).
pub struct RescanScrubImport {
    pub path: String,
    pub anime_title: String,
    pub episode_label: String,
}

/// Title affected by a small rescan import batch.
pub struct RescanOpEdImport {
    pub anime_id: i64,
    pub anime_title: String,
}

/// When a rescan imports at most this many episodes, their preprocessing is queued.
pub const RESCAN_AUTO_SCRUB_MAX: usize = 50;

pub const DEFAULT_MAX_PARALLEL: u32 = 12;

pub const DEFAULT_FFMPEG_MAX_PARALLEL: u32 = 1;

pub const DEFAULT_CHROMA_MAX_PARALLEL: u32 = 12;

pub const MAX_PARALLEL_CAP: u32 = 20;

/// Low-priority jobs allowed to run at once while the rescan throttle is active.
pub const RESCAN_LOW_PRIORITY_CAP: u32 = 2;

pub const RESCAN_LOW_PRIORITY_THROTTLE_MS: u64 = 30_000;

// ---------------------------------------------------------------------------------------------
// Resource types
// ---------------------------------------------------------------------------------------------

/// The stored name of a resource type.
pub open spec fn resource_type_name(t: JobResourceType) -> Seq<char> {
    match t {
        JobResourceType::Unpooled => "none"@,
        JobResourceType::Ffmpeg => "ffmpeg"@,
        JobResourceType::Chroma => "chroma"@,
    }
}

/// The resource type stored under a name, if any.
pub open spec fn resource_type_of(s: Seq<char>) -> Option<JobResourceType> {
    if s == "none"@ {
        Some(JobResourceType::Unpooled)
    } else if s == "ffmpeg"@ {
        Some(JobResourceType::Ffmpeg)
    } else if s == "chroma"@ {
        Some(JobResourceType::Chroma)
    } else {
        None
    }
}

impl JobResourceType {
    pub fn as_str(self) -> (r: &'static str)
        ensures
            r@ == resource_type_name(self),
    {
        match self {
            JobResourceType::Unpooled => "none",
            JobResourceType::Ffmpeg => "ffmpeg",
            JobResourceType::Chroma => "chroma",
        }
    }

    pub fn parse(value: &str) -> (r: Option<JobResourceType>)
        ensures
            r == resource_type_of(value@),
    {
        let v = chars_of(value);
        if eq_str(&v, "none") {
            Some(JobResourceType::Unpooled)
        } else if eq_str(&v, "ffmpeg") {
            Some(JobResourceType::Ffmpeg)
        } else if eq_str(&v, "chroma") {
            Some(JobResourceType::Chroma)
        } else {
            None
        }
    }
}

/// Reading back the stored name of a resource type gives the same type, and a name is read
/// as a type only when it is that type's stored name.
pub proof fn lemma_resource_type_round_trip(t: JobResourceType, s: Seq<char>)
    ensures
        resource_type_of(resource_type_name(t)) == Some(t),
        resource_type_of(s) == Some(t) ==> s == resource_type_name(t),
{
    reveal_strlit("none");
    reveal_strlit("ffmpeg");
    reveal_strlit("chroma");
    assert("ffmpeg"@[0] != "none"@[0]);
    assert("chroma"@[0] != "none"@[0]);
    assert("chroma"@[0] != "ffmpeg"@[0]);
}

// ---------------------------------------------------------------------------------------------
// Enqueue results
// ---------------------------------------------------------------------------------------------

impl EnqueueJobResult {
    pub fn queued(job_id: Option<String>) -> (r: EnqueueJobResult)
        ensures
            r.job_id == job_id,
            !r.skipped,
            !r.chroma_only,
    {
        EnqueueJobResult { job_id, skipped: false, chroma_only: false }
    }

    pub fn skipped() -> (r: EnqueueJobResult)
        ensures
            r.job_id is None,
            r.skipped,
            !r.chroma_only,
    {
        EnqueueJobResult { job_id: None, skipped: true, chroma_only: false }
    }

    pub fn chroma_only() -> (r: EnqueueJobResult)
        ensures
            r.job_id is None,
            !r.skipped,
            r.chroma_only,
    {
        EnqueueJobResult { job_id: None, skipped: false, chroma_only: true }
    }

    pub fn with_skip(job_id: Option<String>, skipped: bool) -> (r: EnqueueJobResult)
        ensures
            r.job_id == job_id,
            r.skipped == skipped,
            !r.chroma_only,
    {
        EnqueueJobResult { job_id, skipped, chroma_only: false }
    }
}

// ---------------------------------------------------------------------------------------------
// Priorities and limits
// ---------------------------------------------------------------------------------------------

/// Rank of a priority: low < medium < high.
pub open spec fn rank(p: JobPriority) -> u8 {
    match p {
        JobPriority::Low => 0,
        JobPriority::Medium => 1,
        JobPriority::High => 2,
    }
}

pub fn priority_rank(priority: JobPriority) -> (r: u8)
    ensures
        r == rank(priority),
{
    match priority {
        JobPriority::Low => 0,
        JobPriority::Medium => 1,
        JobPriority::High => 2,
    }
}

/// Ranks order the priorities strictly, so sorting by rank is sorting by priority.
pub proof fn lemma_rank_orders_priorities(a: JobPriority, b: JobPriority)
    ensures
        rank(a) == rank(b) <==> a == b,
        rank(JobPriority::Low) < rank(JobPriority::Medium) < rank(JobPriority::High),
{
}

/// While the rescan throttle is active, a low-priority job waits once the running
/// low-priority jobs reach their cap.
pub open spec fn throttle_blocks(
    priority: JobPriority,
    now: u64,
    throttle_until: u64,
    running_low_priority: u32,
) -> bool {
    priority == JobPriority::Low && now < throttle_until && running_low_priority
        >= RESCAN_LOW_PRIORITY_CAP
}

pub fn rescan_throttle_blocks_low_priority(
    priority: JobPriority,
    now: u64,
    throttle_until: u64,
    running_low_priority: u32,
) -> (r: bool)
    ensures
        r == throttle_blocks(priority, now, throttle_until, running_low_priority),
{
    priority == JobPriority::Low && now < throttle_until && running_low_priority
        >= RESCAN_LOW_PRIORITY_CAP
}

/// The default parallel limit of a resource pool.
pub open spec fn default_type_limit(t: JobResourceType) -> u32 {
    match t {
        JobResourceType::Ffmpeg => DEFAULT_FFMPEG_MAX_PARALLEL,
        JobResourceType::Chroma => DEFAULT_CHROMA_MAX_PARALLEL,
        JobResourceType::Unpooled => MAX_PARALLEL_CAP,
    }
}

pub fn default_type_max_parallel(resource_type: JobResourceType) -> (r: u32)
    ensures
        r == default_type_limit(resource_type),
{
    match resource_type {
        JobResourceType::Ffmpeg => DEFAULT_FFMPEG_MAX_PARALLEL,
        JobResourceType::Chroma => DEFAULT_CHROMA_MAX_PARALLEL,
        JobResourceType::Unpooled => MAX_PARALLEL_CAP,
    }
}

/// The settings key under which a pool's limit is stored.
pub fn type_max_parallel_setting_key(resource_type: &str) -> (r: String)
    ensures
        r@ == "jobs_max_parallel_type_"@ + resource_type@,
{
    let mut v = chars_of("jobs_max_parallel_type_");
    append_str(&mut v, resource_type);
    string_of(&v)
}

/// A stored parallel limit: its number when it parses, else the default, clamped to
/// `1..=MAX_PARALLEL_CAP`.
pub open spec fn setting_limit(stored: Option<Seq<char>>, default: u32) -> u32 {
    let v: u32 = match stored {
        Some(s) => match parse_u32_spec(s) {
            Some(n) => n,
            None => default,
        },
        None => default,
    };
    if v < 1 {
        1
    } else if v > MAX_PARALLEL_CAP {
        MAX_PARALLEL_CAP
    } else {
        v
    }
}

/// Reads a stored parallel limit (the decision of `load_max_parallel` and
/// `load_type_max_parallel` once the setting has been read).
pub fn parallel_limit_from_setting(stored: Option<&str>, default: u32) -> (r: u32)
    ensures
        r == setting_limit(stored.deep_view(), default),
        1 <= r <= MAX_PARALLEL_CAP,
{
    let v: u32 = match stored {
        Some(s) => {
            let c = chars_of(s);
            match parse_u32_chars(&c) {
                Some(n) => n,
                None => default,
            }
        },
        None => default,
    };
    if v < 1 {
        1
    } else if v > MAX_PARALLEL_CAP {
        MAX_PARALLEL_CAP
    } else {
        v
    }
}

// ---------------------------------------------------------------------------------------------
// Picking the next job
// ---------------------------------------------------------------------------------------------

/// Some queued medium-priority job can start now.
pub open spec fn startable_medium_queued(can: Seq<bool>, pri: Seq<JobPriority>) -> bool {
    exists|i: int| 0 <= i < can.len() && i < pri.len() && pri[i] == JobPriority::Medium && can[i]
}

/// Queue entry `i` may be picked: it can start, and it is not a low-priority job waiting
/// behind a startable medium one.
pub open spec fn pickable(can: Seq<bool>, pri: Seq<JobPriority>, i: int) -> bool {
    can[i] && !(startable_medium_queued(can, pri) && pri[i] == JobPriority::Low)
}

/// The index picked from a queue: the first pickable entry.
pub open spec fn is_first_pickable(can: Seq<bool>, pri: Seq<JobPriority>, i: int) -> bool {
    0 <= i < can.len() && pickable(can, pri, i) && forall|j: int|
        0 <= j < i ==> !pickable(can, pri, j)
}

/// The first queue position that may start, given whether each queued job can start and its
/// priority: low-priority jobs are passed over while some queued medium job can start.
pub fn pick_startable_index(can: &Vec<bool>, pri: &Vec<JobPriority>) -> (r: Option<usize>)
    requires
        can.len() == pri.len(),
    ensures
        match r {
            Some(i) => is_first_pickable(can@, pri@, i as int),
            None => forall|j: int| 0 <= j < can.len() ==> !pickable(can@, pri@, j),
        },
{
    let mut block_low = false;
    let mut k: usize = 0;
    while k < can.len()
        invariant
            can.len() == pri.len(),
            k <= can.len(),
            block_low <==> exists|i: int|
                0 <= i < k && pri@[i] == JobPriority::Medium && can@[i],
        decreases can.len() - k,
    {
        if pri[k] == JobPriority::Medium && can[k] {
            block_low = true;
        }
        k = k + 1;
    }
    assert(block_low == startable_medium_queued(can@, pri@));
    let mut i: usize = 0;
    while i < can.len()
        invariant
            can.len() == pri.len(),
            i <= can.len(),
            block_low == startable_medium_queued(can@, pri@),
            forall|j: int| 0 <= j < i ==> !pickable(can@, pri@, j),
        decreases can.len() - i,
    {
        if !(block_low && pri[i] == JobPriority::Low) && can[i] {
            return Some(i);
        }
        i = i + 1;
    }
    None
}

/// `f` and `g` were asked about a text equal to `id` and answered `c` and `p`.
pub open spec fn answered<'a, F: Fn(&'a str) -> bool, G: Fn(&'a str) -> JobPriority>(
    f: F,
    g: G,
    id: Seq<char>,
    c: bool,
    p: JobPriority,
) -> bool {
    exists|s: &'a str| s@ == id && f.ensures((s,), c) && g.ensures((s,), p)
}

/// The queue answers `can`/`pri` came from asking `f` and `g` about each queued id, and `r`
/// is the pick they determine.
pub open spec fn pick_outcome<'a, F: Fn(&'a str) -> bool, G: Fn(&'a str) -> JobPriority>(
    f: F,
    g: G,
    ids: Seq<String>,
    can: Seq<bool>,
    pri: Seq<JobPriority>,
    r: Option<String>,
) -> bool {
    &&& can.len() == ids.len()
    &&& pri.len() == ids.len()
    &&& forall|i: int| 0 <= i < ids.len() ==> #[trigger] answered(f, g, ids[i]@, can[i], pri[i])
    &&& match r {
        Some(id) => exists|i: int| is_first_pickable(can, pri, i) && id@ == #[trigger] ids[i]@,
        None => forall|j: int| 0 <= j < can.len() ==> !pickable(can, pri, j),
    }
}

/// The queued id to start next. `can_start` and `job_priority` are asked once per queued id;
/// the pick is the first id that can start, passing over low-priority ids while some queued
/// medium-priority id can start.
pub fn pick_startable_from_queue<'a, F, G>(
    queued_ids: &'a [String],
    can_start: F,
    job_priority: G,
) -> (r: Option<String>) where F: Fn(&'a str) -> bool, G: Fn(&'a str) -> JobPriority
    requires
        forall|s: &'a str| can_start.requires((s,)),
        forall|s: &'a str| job_priority.requires((s,)),
    ensures
        exists|can: Seq<bool>, pri: Seq<JobPriority>|
            #[trigger] pick_outcome(can_start, job_priority, queued_ids@, can, pri, r),
{
    let mut can: Vec<bool> = Vec::new();
    let mut pri: Vec<JobPriority> = Vec::new();
    let mut k: usize = 0;
    while k < queued_ids.len()
        invariant
            k <= queued_ids.len(),
            can.len() == k,
            pri.len() == k,
            forall|s: &'a str| can_start.requires((s,)),
            forall|s: &'a str| job_priority.requires((s,)),
            forall|i: int|
                0 <= i < k ==> #[trigger] answered(
                    can_start,
                    job_priority,
                    queued_ids@[i]@,
                    can@[i],
                    pri@[i],
                ),
        decreases queued_ids.len() - k,
    {
        let id: &'a str = queued_ids[k].as_str();
        let c = can_start(id);
        let p = job_priority(id);
        can.push(c);
        pri.push(p);
        assert(answered(can_start, job_priority, queued_ids@[k as int]@, can@[k as int], pri@[k as int]));
        k = k + 1;
    }
    let r = match pick_startable_index(&can, &pri) {
        Some(i) => {
            let id = string_from(queued_ids[i].as_str());
            assert(id@ == queued_ids@[i as int]@);
            Some(id)
        },
        None => None,
    };
    assert(pick_outcome(can_start, job_priority, queued_ids@, can@, pri@, r));
    r
}

// ---------------------------------------------------------------------------------------------
// Whether a queued job may start
// ---------------------------------------------------------------------------------------------

/// What the manager knows about the running jobs when it considers starting one.
pub struct RunningCounts {
    /// All running jobs.
    pub total: u32,
    /// Running jobs of low priority.
    pub low_priority: u32,
    /// Running jobs in the candidate's resource pool.
    pub same_resource: u32,
}

/// The limits that apply to a candidate.
pub struct StartLimits {
    pub max_parallel: u32,
    /// The candidate pool's limit; `None` for jobs outside any pool.
    pub type_limit: Option<u32>,
    pub now_ms: u64,
    pub rescan_throttle_until_ms: u64,
}

/// A queued job may start (before any per-disk staggering): the global cap binds low and medium
/// jobs only, the rescan throttle binds low jobs, the pool cap binds every job, and all
/// prerequisites must have finished.
pub open spec fn may_start(
    status: JobStatus,
    priority: JobPriority,
    running: RunningCounts,
    limits: StartLimits,
    prerequisites_met: bool,
) -> bool {
    &&& status == JobStatus::Queued
    &&& (priority == JobPriority::High || running.total < limits.max_parallel)
    &&& !throttle_blocks(
        priority,
        limits.now_ms,
        limits.rescan_throttle_until_ms,
        running.low_priority,
    )
    &&& (limits.type_limit matches Some(cap) ==> running.same_resource < cap)
    &&& prerequisites_met
}

/// The start decision of `can_start_without_stagger`, over the counts the manager keeps.
pub fn can_start_without_stagger(
    status: JobStatus,
    priority: JobPriority,
    running: &RunningCounts,
    limits: &StartLimits,
    prerequisites_met: bool,
) -> (r: bool)
    ensures
        r == may_start(status, priority, *running, *limits, prerequisites_met),
{
    if status != JobStatus::Queued {
        return false;
    }
    let is_high = priority == JobPriority::High;
    if !is_high && running.total >= limits.max_parallel {
        return false;
    }
    if rescan_throttle_blocks_low_priority(
        priority,
        limits.now_ms,
        limits.rescan_throttle_until_ms,
        running.low_priority,
    ) {
        return false;
    }
    if let Some(type_limit) = limits.type_limit {
        if running.same_resource >= type_limit {
            return false;
        }
    }
    prerequisites_met
}

/// The limit of a resource pool: `None` for jobs outside any pool, else the configured limit
/// or the pool's default.
pub fn type_max_for(resource_type: JobResourceType, configured: Option<u32>) -> (r: Option<u32>)
    ensures
        resource_type == JobResourceType::Unpooled ==> r is None,
        resource_type != JobResourceType::Unpooled ==> r == Some(
            match configured {
                Some(v) => v,
                None => default_type_limit(resource_type),
            },
        ),
{
    if resource_type == JobResourceType::Unpooled {
        return None;
    }
    match configured {
        Some(v) => Some(v),
        None => Some(default_type_max_parallel(resource_type)),
    }
}

// ---------------------------------------------------------------------------------------------
// Descriptions
// ---------------------------------------------------------------------------------------------

/// The non-empty trimmed parts of a scrub request, title first.
pub open spec fn scrub_desc_parts(title: Option<Seq<char>>, label: Option<Seq<char>>) -> Seq<
    Seq<char>,
> {
    let t: Seq<Seq<char>> = match title {
        Some(s) => if trim(s).len() > 0 {
            seq![trim(s)]
        } else {
            Seq::empty()
        },
        None => Seq::empty(),
    };
    match label {
        Some(s) => if trim(s).len() > 0 {
            t.push(trim(s))
        } else {
            t
        },
        None => t,
    }
}

/// The description of a scrub job: `title — label` from the non-empty parts, else the file
/// name of the path, else the path itself.
pub open spec fn scrub_desc(path: Seq<char>, title: Option<Seq<char>>, label: Option<Seq<char>>) -> Seq<
    char,
> {
    let parts = scrub_desc_parts(title, label);
    if parts.len() == 2 {
        parts[0] + " — "@ + parts[1]
    } else if parts.len() == 1 {
        parts[0]
    } else {
        match file_name_text(path) {
            Some(n) => n,
            None => path,
        }
    }
}

fn trimmed_part(o: &Option<String>) -> (r: Option<Vec<char>>)
    ensures
        match o.deep_view() {
            Some(s) => if trim(s).len() > 0 {
                r is Some && r->0@ == trim(s)
            } else {
                r is None
            },
            None => r is None,
        },
{
    match o {
        Some(s) => {
            let t = trim_chars(&chars_of(s.as_str()));
            if t.len() > 0 {
                Some(t)
            } else {
                None
            }
        },
        None => None,
    }
}

pub fn build_scrub_desc(request: &EnqueueScrubSpriteJob) -> (r: String)
    ensures
        r@ == scrub_desc(
            request.path@,
            request.anime_title.deep_view(),
            request.episode_label.deep_view(),
        ),
{
    let t = trimmed_part(&request.anime_title);
    let l = trimmed_part(&request.episode_label);
    match (t, l) {
        (Some(tv), Some(lv)) => {
            let mut v = tv;
            append_str(&mut v, " — ");
            crate::text::append_chars(&mut v, &lv);
            string_of(&v)
        },
        (Some(tv), None) => string_of(&tv),
        (None, Some(lv)) => string_of(&lv),
        (None, None) => {
            let p = chars_of(request.path.as_str());
            match file_name_chars(&p) {
                Some(n) => string_of(&n),
                None => string_of(&p),
            }
        },
    }
}

/// The description of a chroma job: `title — file name` when a non-empty title is given, else
/// the file name of the episode path (or the path itself).
pub fn build_chroma_desc(episode_path: &str, anime_title: Option<&str>) -> (r: String)
    ensures
        r@ == ({
            let file_label = match file_name_text(episode_path@) {
                Some(n) => n,
                None => episode_path@,
            };
            match anime_title.deep_view() {
                Some(t) => if trim(t).len() > 0 {
                    trim(t) + " — "@ + file_label
                } else {
                    file_label
                },
                None => file_label,
            }
        }),
{
    let p = chars_of(episode_path);
    let file_label = match file_name_chars(&p) {
        Some(n) => n,
        None => p,
    };
    match anime_title {
        Some(t) => {
            let tv = trim_chars(&chars_of(t));
            if tv.len() > 0 {
                let mut v = tv;
                append_str(&mut v, " — ");
                crate::text::append_chars(&mut v, &file_label);
                string_of(&v)
            } else {
                string_of(&file_label)
            }
        },
        None => string_of(&file_label),
    }
}

/// The description of a title's detect and rematch jobs: its trimmed title, or `Anime #{id}`
/// when the title is missing or blank.
pub fn job_title_desc(anime_title: Option<&str>, anime_id: i64) -> (r: String)
    ensures
        r@ == (match anime_title.deep_view() {
            Some(t) => if trim(t).len() > 0 {
                trim(t)
            } else {
                "Anime #"@ + crate::text::int_text(anime_id as int)
            },
            None => "Anime #"@ + crate::text::int_text(anime_id as int),
        }),
{
    if let Some(t) = anime_title {
        let tv = trim_chars(&chars_of(t));
        if tv.len() > 0 {
            return string_of(&tv);
        }
    }
    let mut v = chars_of("Anime #");
    let d = crate::text::i64_text(anime_id);
    crate::text::append_chars(&mut v, &d);
    string_of(&v)
}

/// The chroma job queued for an episode: the last pair naming it.
pub open spec fn chroma_job_for(pairs: Seq<(i64, u64)>, episode: i64) -> Option<u64>
    decreases pairs.len(),
{
    if pairs.len() == 0 {
        None
    } else if pairs.last().0 == episode {
        Some(pairs.last().1)
    } else {
        chroma_job_for(pairs.drop_last(), episode)
    }
}

/// The chroma jobs of a list of episodes, in episode order, skipping episodes without one.
pub open spec fn chroma_jobs_of(pairs: Seq<(i64, u64)>, episodes: Seq<i64>) -> Seq<u64>
    decreases episodes.len(),
{
    if episodes.len() == 0 {
        Seq::empty()
    } else {
        let before = chroma_jobs_of(pairs, episodes.drop_last());
        match chroma_job_for(pairs, episodes.last()) {
            Some(j) => before.push(j),
            None => before,
        }
    }
}

fn chroma_job_lookup(pairs: &[(i64, u64)], episode: i64) -> (r: Option<u64>)
    ensures
        r == chroma_job_for(pairs@, episode),
{
    let mut k = pairs.len();
    assert(pairs@.take(k as int) =~= pairs@);
    while k > 0
        invariant
            k <= pairs@.len(),
            chroma_job_for(pairs@, episode) == chroma_job_for(pairs@.take(k as int), episode),
        decreases k,
    {
        let (e, j) = pairs[k - 1];
        assert(pairs@.take(k as int).last() == pairs@[k - 1]);
        assert(pairs@.take(k as int).drop_last() =~= pairs@.take(k - 1));
        if e == episode {
            return Some(j);
        }
        k = k - 1;
    }
    None
}

/// The prerequisites of a detect batch: the chroma jobs of its episodes (in episode order),
/// then the previous batch, if any.
pub fn detect_batch_prerequisites(
    episode_ids: &[i64],
    chroma_jobs: &[(i64, u64)],
    previous: Option<u64>,
) -> (r: Vec<u64>)
    ensures
        r@ == (match previous {
            Some(p) => chroma_jobs_of(chroma_jobs@, episode_ids@).push(p),
            None => chroma_jobs_of(chroma_jobs@, episode_ids@),
        }),
{
    let mut r: Vec<u64> = Vec::new();
    let mut i: usize = 0;
    while i < episode_ids.len()
        invariant
            i <= episode_ids@.len(),
            r@ == chroma_jobs_of(chroma_jobs@, episode_ids@.take(i as int)),
        decreases episode_ids@.len() - i,
    {
        assert(episode_ids@.take(i + 1).drop_last() =~= episode_ids@.take(i as int));
        match chroma_job_lookup(chroma_jobs, episode_ids[i]) {
            Some(j) => r.push(j),
            None => {},
        }
        i = i + 1;
    }
    assert(episode_ids@.take(episode_ids@.len() as int) =~= episode_ids@);
    if let Some(p) = previous {
        r.push(p);
    }
    r
}

/// The name of the summary job of a manual rematch.
pub fn manual_rematch_summary_name(episode_count: usize) -> (r: String)
    ensures
        r@ == "Rematch manual skip ("@ + crate::text::decimal(episode_count as nat) + " episodes)"@,
{
    let mut v = chars_of("Rematch manual skip (");
    let d = crate::text::u64_decimal(episode_count as u64);
    crate::text::append_chars(&mut v, &d);
    append_str(&mut v, " episodes)");
    string_of(&v)
}

/// The description of one episode's manual rematch job: `{title} — {episode}`.
pub fn manual_rematch_episode_desc(anime_title: &str, episode_label: &str) -> (r: String)
    ensures
        r@ == anime_title@ + " — "@ + episode_label@,
{
    let mut v = chars_of(anime_title);
    append_str(&mut v, " — ");
    append_str(&mut v, episode_label);
    string_of(&v)
}

} // verus!
