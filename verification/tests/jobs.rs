use anime_player::jobs::{
    build_chroma_desc, build_scrub_desc, can_start_without_stagger, default_type_max_parallel,
    parallel_limit_from_setting, pick_startable_from_queue, pick_startable_index, priority_rank,
    rescan_throttle_blocks_low_priority, type_max_for, type_max_parallel_setting_key,
    EnqueueJobResult, EnqueueScrubSpriteJob, JobPriority, JobResourceType, JobStatus,
    RunningCounts, StartLimits, MAX_PARALLEL_CAP, RESCAN_LOW_PRIORITY_CAP,
};

fn id(s: &str) -> String {
    s.to_string()
}

#[test]
fn low_runs_when_medium_is_queued_but_not_startable() {
    let queue = vec![id("detect"), id("scrub-low")];
    let can = |id: &str| id == "scrub-low";
    let pri = |id: &str| {
        if id == "detect" {
            JobPriority::Medium
        } else {
            JobPriority::Low
        }
    };
    assert_eq!(
        pick_startable_from_queue(&queue, can, pri).as_deref(),
        Some("scrub-low")
    );
}

#[test]
fn low_waits_while_a_startable_medium_is_queued() {
    let queue = vec![id("chroma"), id("scrub-low")];
    let can = |_| true;
    let pri = |id: &str| {
        if id == "chroma" {
            JobPriority::Medium
        } else {
            JobPriority::Low
        }
    };
    assert_eq!(
        pick_startable_from_queue(&queue, can, pri).as_deref(),
        Some("chroma")
    );
}

#[test]
fn picks_first_startable_medium_before_low() {
    let queue = vec![id("detect-blocked"), id("chroma"), id("scrub-low")];
    let can = |id: &str| id != "detect-blocked";
    let pri = |id: &str| match id {
        "scrub-low" => JobPriority::Low,
        _ => JobPriority::Medium,
    };
    assert_eq!(
        pick_startable_from_queue(&queue, can, pri).as_deref(),
        Some("chroma")
    );
}

#[test]
fn rescan_throttle_only_blocks_low_priority_at_its_cap() {
    let now = 1_000;
    let until = 2_000;
    assert!(!rescan_throttle_blocks_low_priority(
        JobPriority::Low,
        now,
        until,
        RESCAN_LOW_PRIORITY_CAP - 1,
    ));
    assert!(rescan_throttle_blocks_low_priority(
        JobPriority::Low,
        now,
        until,
        RESCAN_LOW_PRIORITY_CAP,
    ));
    assert!(!rescan_throttle_blocks_low_priority(
        JobPriority::Medium,
        now,
        until,
        RESCAN_LOW_PRIORITY_CAP,
    ));
    assert!(!rescan_throttle_blocks_low_priority(
        JobPriority::Low,
        until,
        until,
        RESCAN_LOW_PRIORITY_CAP,
    ));
}

#[test]
fn empty_queue_picks_nothing() {
    let queue: Vec<String> = Vec::new();
    assert_eq!(
        pick_startable_from_queue(&queue, |_| true, |_| JobPriority::High),
        None
    );
    assert_eq!(pick_startable_index(&vec![false, false], &vec![JobPriority::High, JobPriority::Low]), None);
}

#[test]
fn high_priority_is_not_held_back() {
    let can = vec![true, true];
    let pri = vec![JobPriority::High, JobPriority::Medium];
    assert_eq!(pick_startable_index(&can, &pri), Some(0));
    let pri = vec![JobPriority::Low, JobPriority::Medium];
    assert_eq!(pick_startable_index(&can, &pri), Some(1));
}

#[test]
fn resource_type_names_round_trip() {
    for t in [JobResourceType::Unpooled, JobResourceType::Ffmpeg, JobResourceType::Chroma] {
        assert!(JobResourceType::parse(t.as_str()) == Some(t));
    }
    assert_eq!(JobResourceType::Unpooled.as_str(), "none");
    assert!(JobResourceType::parse("gpu").is_none());
}

#[test]
fn ranks_and_defaults() {
    assert_eq!(priority_rank(JobPriority::Low), 0);
    assert_eq!(priority_rank(JobPriority::Medium), 1);
    assert_eq!(priority_rank(JobPriority::High), 2);
    assert_eq!(default_type_max_parallel(JobResourceType::Ffmpeg), 1);
    assert_eq!(default_type_max_parallel(JobResourceType::Chroma), 12);
    assert_eq!(default_type_max_parallel(JobResourceType::Unpooled), MAX_PARALLEL_CAP);
    assert_eq!(
        type_max_parallel_setting_key("ffmpeg"),
        "jobs_max_parallel_type_ffmpeg"
    );
}

#[test]
fn stored_limits_are_clamped() {
    assert_eq!(parallel_limit_from_setting(Some("4"), 12), 4);
    assert_eq!(parallel_limit_from_setting(Some("0"), 12), 1);
    assert_eq!(parallel_limit_from_setting(Some("99"), 12), 20);
    assert_eq!(parallel_limit_from_setting(Some("abc"), 3), 3);
    assert_eq!(parallel_limit_from_setting(None, 30), 20);
}

#[test]
fn pool_limits() {
    assert_eq!(type_max_for(JobResourceType::Unpooled, Some(3)), None);
    assert_eq!(type_max_for(JobResourceType::Ffmpeg, None), Some(1));
    assert_eq!(type_max_for(JobResourceType::Chroma, Some(5)), Some(5));
}

#[test]
fn start_decisions() {
    let running = RunningCounts { total: 12, low_priority: 0, same_resource: 0 };
    let limits = StartLimits {
        max_parallel: 12,
        type_limit: Some(2),
        now_ms: 10,
        rescan_throttle_until_ms: 0,
    };
    assert!(!can_start_without_stagger(JobStatus::Queued, JobPriority::Medium, &running, &limits, true));
    assert!(can_start_without_stagger(JobStatus::Queued, JobPriority::High, &running, &limits, true));
    assert!(!can_start_without_stagger(JobStatus::Queued, JobPriority::High, &running, &limits, false));
    assert!(!can_start_without_stagger(JobStatus::Running, JobPriority::High, &running, &limits, true));
    let busy_pool = RunningCounts { total: 1, low_priority: 0, same_resource: 2 };
    assert!(!can_start_without_stagger(JobStatus::Queued, JobPriority::High, &busy_pool, &limits, true));
}

#[test]
fn enqueue_results() {
    let q = EnqueueJobResult::queued(Some("a".to_string()));
    assert_eq!(q.job_id.as_deref(), Some("a"));
    assert!(!q.skipped && !q.chroma_only);
    assert!(EnqueueJobResult::skipped().skipped);
    assert!(EnqueueJobResult::chroma_only().chroma_only);
    assert!(EnqueueJobResult::with_skip(None, true).skipped);
}

#[test]
fn descriptions() {
    let req = EnqueueScrubSpriteJob {
        path: r"D:\show\ep01.mkv".to_string(),
        priority: JobPriority::Low,
        anime_title: Some(" Frieren ".to_string()),
        episode_label: Some("Episode 1".to_string()),
        follow_up: Vec::new(),
    };
    assert_eq!(build_scrub_desc(&req), "Frieren — Episode 1");
    let bare = EnqueueScrubSpriteJob {
        path: r"D:\show\ep01.mkv".to_string(),
        priority: JobPriority::Low,
        anime_title: Some("  ".to_string()),
        episode_label: None,
        follow_up: Vec::new(),
    };
    assert_eq!(build_scrub_desc(&bare), "ep01.mkv");
    assert_eq!(build_chroma_desc(r"D:\show\ep01.mkv", Some(" Frieren ")), "Frieren — ep01.mkv");
    assert_eq!(build_chroma_desc(r"D:\show\ep01.mkv", None), "ep01.mkv");
}

use anime_player::jobs::{
    detect_batch_prerequisites, job_title_desc, manual_rematch_episode_desc,
    manual_rematch_summary_name,
};

#[test]
fn job_helper_texts() {
    assert_eq!(job_title_desc(Some("  Frieren "), 3), "Frieren");
    assert_eq!(job_title_desc(Some("   "), 3), "Anime #3");
    assert_eq!(job_title_desc(None, -4), "Anime #-4");
    assert_eq!(manual_rematch_summary_name(12), "Rematch manual skip (12 episodes)");
    assert_eq!(manual_rematch_episode_desc("Frieren", "Episode 2"), "Frieren — Episode 2");
}

#[test]
fn batch_prerequisites() {
    let chroma = vec![(10i64, 100u64), (12, 120), (10, 101)];
    assert_eq!(detect_batch_prerequisites(&[10, 11, 12], &chroma, None), vec![101, 120]);
    assert_eq!(detect_batch_prerequisites(&[12], &chroma, Some(7)), vec![120, 7]);
    assert_eq!(detect_batch_prerequisites(&[], &chroma, None), Vec::<u64>::new());
}
