use anime_player::job_board::{
    completion_follow_ups, CancelOutcome, CompletionFollowUps, JobBoard, PriorityChange, WorkerOutcome,
};
use anime_player::jobs::{JobPriority, JobResourceType, JobStatus};

fn add(b: &mut JobBoard, id: &str, rt: JobResourceType, p: JobPriority, pre: Vec<u64>) -> u64 {
    let front = p == JobPriority::High;
    let o = b.enqueue(id.to_string(), rt, p, true, pre, false, front);
    assert!(o.added);
    o.number
}

#[test]
fn enqueue_dedupes_by_identity_and_raises_priority() {
    let mut b = JobBoard::with_defaults();
    let a = add(&mut b, "scrub:a", JobResourceType::Ffmpeg, JobPriority::Low, vec![]);
    assert_eq!(a, 1);
    let again = b.enqueue("scrub:a".to_string(), JobResourceType::Ffmpeg, JobPriority::Medium, true, vec![], false, false);
    assert!(!again.added);
    assert!(again.raised);
    assert_eq!(again.number, a);
    let lower = b.enqueue("scrub:a".to_string(), JobResourceType::Ffmpeg, JobPriority::Low, true, vec![], false, false);
    assert!(!lower.raised);
    assert_eq!(b.find_identity("scrub:a"), Some(a));
    assert_eq!(b.find_identity("scrub:b"), None);
    assert_eq!(b.active_count(), 1);
}

#[test]
fn pool_limit_holds_back_second_ffmpeg_job() {
    let mut b = JobBoard::with_defaults();
    let a = add(&mut b, "a", JobResourceType::Ffmpeg, JobPriority::Medium, vec![]);
    let c = add(&mut b, "c", JobResourceType::Ffmpeg, JobPriority::Medium, vec![]);
    assert_eq!(b.next_startable(0, &[]), Some(a));
    assert!(b.start(a));
    assert!(!b.start(a));
    assert!(!b.can_start_without_stagger(c, 0));
    assert_eq!(b.next_startable(0, &[]), None);
    assert_eq!(b.running_counts(JobResourceType::Ffmpeg), (1, 0, 1));
    let outs = b.finish(a, JobStatus::Done, Some("ok".to_string()));
    assert_eq!(outs.len(), 1);
    assert_eq!(b.next_startable(0, &[]), Some(c));
    assert_eq!(b.next_startable(0, &[c]), None);
}

#[test]
fn global_limit_binds_all_but_high() {
    let mut b = JobBoard::new(1, 5, 5);
    let a = add(&mut b, "a", JobResourceType::Unpooled, JobPriority::Medium, vec![]);
    let m = add(&mut b, "m", JobResourceType::Unpooled, JobPriority::Medium, vec![]);
    assert!(b.start(a));
    assert!(!b.can_start_without_stagger(m, 0));
    let h = add(&mut b, "h", JobResourceType::Unpooled, JobPriority::High, vec![]);
    assert!(b.can_start_without_stagger(h, 0));
    assert_eq!(b.next_startable(0, &[]), Some(h));
}

#[test]
fn prerequisites_gate_and_failures_cascade() {
    let mut b = JobBoard::with_defaults();
    let p = add(&mut b, "chroma:1", JobResourceType::Chroma, JobPriority::Medium, vec![]);
    let d1 = add(&mut b, "detect:0", JobResourceType::Unpooled, JobPriority::High, vec![p]);
    let d2 = add(&mut b, "detect:1", JobResourceType::Unpooled, JobPriority::High, vec![p, d1]);
    let other = add(&mut b, "other", JobResourceType::Unpooled, JobPriority::Low, vec![]);
    assert!(!b.prerequisites_met(d1));
    assert_eq!(b.prerequisite_progress(d2), Some((0, 4)));
    assert!(b.start(p));
    assert_eq!(b.prerequisite_progress(d2), Some((1, 4)));
    assert_eq!(b.pending_prerequisites(d2), vec![p, d1]);
    let outs = b.finish(p, JobStatus::Failed, Some("boom".to_string()));
    let nums: Vec<u64> = outs.iter().map(|o| o.number).collect();
    assert_eq!(nums, vec![p, d1, d2]);
    assert!(matches!(outs[1].status, JobStatus::Failed));
    assert_eq!(outs[1].message.as_deref(), Some(format!("Prerequisite #{p} failed").as_str()));
    assert_eq!(outs[2].message.as_deref(), Some(format!("Prerequisite #{d1} failed").as_str()));
    assert!(b.is_active(other));
    assert!(!b.is_active(d2));
    assert_eq!(b.active_count(), 1);
}

#[test]
fn done_prerequisites_let_dependents_start() {
    let mut b = JobBoard::with_defaults();
    let p = add(&mut b, "p", JobResourceType::Chroma, JobPriority::Medium, vec![]);
    let d = add(&mut b, "d", JobResourceType::Unpooled, JobPriority::High, vec![p]);
    assert!(b.start(p));
    assert_eq!(b.finish(p, JobStatus::Done, None).len(), 1);
    assert!(b.prerequisites_met(d));
    assert_eq!(b.prerequisite_progress(d), Some((2, 2)));
    assert_eq!(b.next_startable(0, &[]), Some(d));
}

#[test]
fn cancel_requests() {
    let mut b = JobBoard::with_defaults();
    let q = add(&mut b, "q", JobResourceType::Unpooled, JobPriority::Medium, vec![]);
    let dep = add(&mut b, "dep", JobResourceType::Unpooled, JobPriority::Medium, vec![q]);
    let r = add(&mut b, "r", JobResourceType::Unpooled, JobPriority::Medium, vec![]);
    assert!(b.start(r));
    match b.cancel(q) {
        Ok(rep) => {
            assert!(rep.children.is_empty());
            let outs = match rep.outcome {
                CancelOutcome::Finished(outs) => outs,
                CancelOutcome::SignalWorker => panic!("queued job should finish"),
            };
            assert_eq!(outs.len(), 2);
            assert_eq!(outs[0].message.as_deref(), Some("Canceled by user"));
            assert_eq!(outs[1].number, dep);
            assert_eq!(outs[1].message.as_deref(), Some(format!("Prerequisite #{q} was canceled").as_str()));
        }
        Err(_) => panic!("queued job should finish"),
    }
    assert!(matches!(b.cancel(r).map(|rep| rep.outcome), Ok(CancelOutcome::SignalWorker)));
    assert!(b.is_active(r));
    match b.cancel(99) {
        Err(e) => assert_eq!(e, "job not found: job-99"),
        Ok(_) => panic!("unknown job"),
    }
    let fixed = b.enqueue("fixed".to_string(), JobResourceType::Unpooled, JobPriority::Low, false, vec![], false, false).number;
    match b.cancel(fixed) {
        Err(e) => assert_eq!(e, "job is not cancelable"),
        Ok(_) => panic!("not cancelable"),
    }
    assert_eq!(b.cancelable_jobs(), vec![r]);
}

#[test]
fn priority_changes() {
    let mut b = JobBoard::with_defaults();
    let a = add(&mut b, "a", JobResourceType::Unpooled, JobPriority::Low, vec![]);
    let c = add(&mut b, "c", JobResourceType::Unpooled, JobPriority::Low, vec![]);
    assert!(b.set_priority(c, JobPriority::Low) == Ok(PriorityChange::Unchanged));
    assert!(b.set_priority(c, JobPriority::High) == Ok(PriorityChange::Raised));
    assert_eq!(b.next_startable(0, &[]), Some(c));
    assert!(b.set_priority(c, JobPriority::Medium) == Ok(PriorityChange::Lowered));
    assert!(b.start(a));
    assert_eq!(b.set_priority(a, JobPriority::High), Err("only queued jobs can change priority".to_string()));
    assert_eq!(b.set_priority(7, JobPriority::High), Err("job not found: job-7".to_string()));
}

#[test]
fn families_and_identities() {
    let mut b = JobBoard::with_defaults();
    let d0 = add(&mut b, "op_ed_detect:5:0", JobResourceType::Unpooled, JobPriority::High, vec![]);
    let d1 = add(&mut b, "op_ed_detect:5:1", JobResourceType::Unpooled, JobPriority::Medium, vec![]);
    let x = add(&mut b, "op_ed_detect:55:0", JobResourceType::Unpooled, JobPriority::Low, vec![]);
    let ch = add(&mut b, "op_ed_chroma:9", JobResourceType::Chroma, JobPriority::Low, vec![]);
    assert_eq!(b.active_in_family("op_ed_detect:5:", "op_ed_detect:5"), Some(d0));
    assert_eq!(b.active_in_family("op_ed_detect:6:", "op_ed_detect:6"), None);
    assert_eq!(b.queued_in_family("op_ed_detect:5:", "op_ed_detect:5", false), vec![d0, d1]);
    assert_eq!(b.queued_in_family("op_ed_detect:5:", "op_ed_detect:5", true), vec![d1]);
    assert_eq!(b.queued_with_identities(&vec!["op_ed_chroma:9".to_string(), "nope".to_string()]), vec![ch]);
    assert!(b.is_active(x));
}

#[test]
fn limits_and_throttle() {
    let mut b = JobBoard::new(0, 50, 3);
    assert_eq!(b.current_max_parallel(), 1);
    assert_eq!(b.current_type_limit(JobResourceType::Ffmpeg), Some(20));
    assert_eq!(b.current_type_limit(JobResourceType::Unpooled), None);
    assert_eq!(b.set_max_parallel(7), 7);
    assert_eq!(b.set_type_limit("chroma", 0), Ok(1));
    assert_eq!(b.set_type_limit("none", 4), Err("unknown resource type: none".to_string()));
    assert_eq!(b.set_type_limit("gpu", 4), Err("unknown resource type: gpu".to_string()));

    let mut t = JobBoard::with_defaults();
    let l1 = add(&mut t, "l1", JobResourceType::Unpooled, JobPriority::Low, vec![]);
    let l2 = add(&mut t, "l2", JobResourceType::Unpooled, JobPriority::Low, vec![]);
    let l3 = add(&mut t, "l3", JobResourceType::Unpooled, JobPriority::Low, vec![]);
    t.activate_rescan_throttle(1_000);
    assert!(t.start(l1));
    assert!(t.start(l2));
    assert!(!t.can_start_without_stagger(l3, 2_000));
    assert_eq!(t.throttle_wakeup_delay(2_000), Some(29_000));
    assert!(t.can_start_without_stagger(l3, 31_000));
    assert!(!t.release_elapsed_throttle(30_999));
    assert!(t.release_elapsed_throttle(31_000));
    assert_eq!(t.throttle_wakeup_delay(31_000), None);
}

#[test]
fn canceling_a_queued_job_keeps_the_others_in_order() {
    let mut b = JobBoard::new(5, 5, 5);
    let a = add(&mut b, "a", JobResourceType::Unpooled, JobPriority::Medium, vec![]);
    let m = add(&mut b, "m", JobResourceType::Unpooled, JobPriority::Medium, vec![]);
    let z = add(&mut b, "z", JobResourceType::Unpooled, JobPriority::Medium, vec![]);
    assert!(matches!(b.cancel(m).map(|rep| rep.outcome), Ok(CancelOutcome::Finished(_))));
    assert_eq!(b.next_startable(0, &[]), Some(a));
    assert_eq!(b.next_startable(0, &[a]), Some(z));
    assert!(b.start(a));
    assert_eq!(b.next_startable(0, &[]), Some(z));
}

#[test]
fn cancelling_a_summary_cancels_its_episode_jobs() {
    let mut b = JobBoard::new(5, 5, 5);
    let e1 = add(&mut b, "manual_op_ed_rematch:7:1", JobResourceType::Chroma, JobPriority::Medium, vec![]);
    let e2 = add(&mut b, "manual_op_ed_rematch:7:2", JobResourceType::Chroma, JobPriority::Medium, vec![]);
    let fixed = b.enqueue("manual_op_ed_rematch:7:3".to_string(), JobResourceType::Chroma, JobPriority::Medium, false, vec![], false, false).number;
    let summary = b
        .enqueue("manual_op_ed_rematch:7".to_string(), JobResourceType::Unpooled, JobPriority::Medium, true, vec![e1, e2, fixed], true, false)
        .number;
    assert!(b.start(e1));
    let rep = b.cancel(summary).expect("cancelable");
    assert!(matches!(rep.outcome, CancelOutcome::Finished(_)));
    assert_eq!(rep.children.len(), 2);
    assert_eq!(rep.children[0].0, e1);
    assert!(matches!(rep.children[0].1, CancelOutcome::SignalWorker));
    assert_eq!(rep.children[1].0, e2);
    assert!(matches!(rep.children[1].1, CancelOutcome::Finished(_)));
    assert!(b.is_active(e1));
    assert!(!b.is_active(e2));
    assert!(b.is_active(fixed));
    assert!(!b.is_active(summary));
}

#[test]
fn start_all_startable_fills_the_free_slots() {
    let mut b = JobBoard::new(2, 5, 5);
    let a = add(&mut b, "a", JobResourceType::Unpooled, JobPriority::Medium, vec![]);
    let c = add(&mut b, "c", JobResourceType::Unpooled, JobPriority::Medium, vec![]);
    let d = add(&mut b, "d", JobResourceType::Unpooled, JobPriority::Medium, vec![]);
    let started = b.start_all_startable(0, &[]);
    assert_eq!(started, vec![a, c]);
    assert_eq!(b.next_startable(0, &[]), None);
    assert!(b.is_active(d));
    assert!(b.start_all_startable(0, &[]).is_empty());
}

#[test]
fn worker_outcomes_finish_jobs() {
    let mut b = JobBoard::with_defaults();
    let a = add(&mut b, "scrub:a", JobResourceType::Ffmpeg, JobPriority::Low, vec![]);
    let d = add(&mut b, "scrub:d", JobResourceType::Ffmpeg, JobPriority::Low, vec![a]);
    let c = add(&mut b, "scrub:c", JobResourceType::Ffmpeg, JobPriority::Low, vec![]);
    assert!(b.start(a));
    let outs = b.complete_worker(a, WorkerOutcome::Failed("ffmpeg failed".to_string()));
    assert_eq!(outs.len(), 2);
    assert_eq!(outs[0].number, a);
    assert!(outs[0].status == JobStatus::Failed);
    assert_eq!(outs[0].message.as_deref(), Some("ffmpeg failed"));
    assert_eq!(outs[1].number, d);
    let outs = b.complete_worker(c, WorkerOutcome::Canceled);
    assert_eq!(outs.len(), 1);
    assert!(outs[0].status == JobStatus::Canceled);
    assert_eq!(outs[0].message.as_deref(), Some("Canceled"));
    assert!(b.complete_worker(c, WorkerOutcome::Done("again".to_string(), false)).is_empty());
    let e = add(&mut b, "scrub:e", JobResourceType::Ffmpeg, JobPriority::Low, vec![]);
    let outs = b.complete_worker(e, WorkerOutcome::Done("Sprite ready".to_string(), true));
    assert_eq!(outs.len(), 1);
    assert!(outs[0].status == JobStatus::Done);
    assert_eq!(outs[0].message.as_deref(), Some("Sprite ready"));
}

#[test]
fn worker_outcome_follow_ups() {
    let done = WorkerOutcome::Done("ok".to_string(), true);
    assert!(
        completion_follow_ups(&done, true, true)
            == CompletionFollowUps {
                sprite_ready: true,
                sprite_unavailable: false,
                enqueue_follow_ups: true,
                refresh_op_ed_analysis: true,
            }
    );
    let failed = WorkerOutcome::Failed("x".to_string());
    assert!(
        completion_follow_ups(&failed, true, true)
            == CompletionFollowUps {
                sprite_ready: false,
                sprite_unavailable: true,
                enqueue_follow_ups: false,
                refresh_op_ed_analysis: false,
            }
    );
    let canceled = WorkerOutcome::Canceled;
    assert!(!completion_follow_ups(&canceled, false, true).sprite_unavailable);
}
