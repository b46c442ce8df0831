//! The scheduling state of the background job manager: the active jobs (queued or running), the
//! order of the queue, the recent outcomes, and the limits that decide when a queued job may
//! start. Workers, progress and events live with the caller; every decision on this state is
//! taken here.
use vstd::prelude::*;

use crate::text::{decimal, string_from};

use crate::jobs::{
    is_first_pickable, pick_startable_index, pickable, priority_rank, rank, JobPriority, JobResourceType, JobStatus,
    DEFAULT_CHROMA_MAX_PARALLEL, DEFAULT_FFMPEG_MAX_PARALLEL, DEFAULT_MAX_PARALLEL,
    MAX_PARALLEL_CAP, RESCAN_LOW_PRIORITY_CAP, RESCAN_LOW_PRIORITY_THROTTLE_MS,
};

verus! {

/// Outcomes kept for prerequisite checks (and shown as history).
pub const HISTORY_CAP: usize = 200;

/// An active job as the scheduler sees it. Its id is `job-{number}`; its short id is the number.
pub struct JobEntry {
    pub number: u64,
    pub identity: String,
    pub resource_type: JobResourceType,
    pub priority: JobPriority,
    pub status: JobStatus,
    pub cancelable: bool,
    /// Jobs that must have finished successfully before this one starts.
    pub prerequisites: Vec<u64>,
    /// Cancelling this job cancels its prerequisites too (a progress job over per-item jobs).
    pub cancels_prerequisites: bool,
}

/// A finished job as remembered by the scheduler.
#[derive(PartialEq, Eq, Structural, Clone, Copy)]
pub struct FinishedJob {
    pub number: u64,
    pub status: JobStatus,
}

/// A job that has just finished, with the message to record.
pub struct JobOutcome {
    pub number: u64,
    pub status: JobStatus,
    pub message: Option<String>,
}

pub struct JobBoard {
    entries: Vec<JobEntry>,
    queue: Vec<u64>,
    history: Vec<FinishedJob>,
    next_number: u64,
    max_parallel: u32,
    ffmpeg_limit: u32,
    chroma_limit: u32,
    throttle_until: u64,
}

/// What a job's worker returned. `Done` carries the completion message and whether the worker
/// produced a ready scrub-preview sprite (whose details stay with the caller).
pub enum WorkerOutcome {
    Done(String, bool),
    Failed(String),
    Canceled,
}

/// The status a job ends with for its worker's outcome.
pub open spec fn worker_status(outcome: WorkerOutcome) -> JobStatus {
    match outcome {
        WorkerOutcome::Done(..) => JobStatus::Done,
        WorkerOutcome::Failed(..) => JobStatus::Failed,
        WorkerOutcome::Canceled => JobStatus::Canceled,
    }
}

/// The completion message recorded for a worker's outcome.
pub open spec fn worker_message(outcome: WorkerOutcome) -> Seq<char> {
    match outcome {
        WorkerOutcome::Done(m, _) => m@,
        WorkerOutcome::Failed(m) => m@,
        WorkerOutcome::Canceled => "Canceled"@,
    }
}

/// What follows a worker's outcome besides recording it.
#[derive(PartialEq, Eq, Structural, Clone, Copy)]
pub struct CompletionFollowUps {
    /// Announce the ready scrub-preview sprite.
    pub sprite_ready: bool,
    /// Announce that the scrub-preview sprite of the job's path is unavailable.
    pub sprite_unavailable: bool,
    /// Queue the scrub-preview jobs that were waiting on this one.
    pub enqueue_follow_ups: bool,
    /// Refresh the OP/ED analysis of the job's title.
    pub refresh_op_ed_analysis: bool,
}

/// The follow-ups of a worker's outcome for a job that builds a scrub-preview sprite
/// (`scrub_job`) or belongs to a title's OP/ED analysis (`op_ed_job`): on success the ready
/// sprite is announced if there is one, waiting jobs are queued and the analysis refreshed; on
/// failure or cancellation a scrub sprite is announced as unavailable.
pub fn completion_follow_ups(outcome: &WorkerOutcome, scrub_job: bool, op_ed_job: bool) -> (r:
    CompletionFollowUps)
    ensures
        r == (match outcome {
            WorkerOutcome::Done(_, ready) => CompletionFollowUps {
                sprite_ready: *ready,
                sprite_unavailable: false,
                enqueue_follow_ups: true,
                refresh_op_ed_analysis: op_ed_job,
            },
            _ => CompletionFollowUps {
                sprite_ready: false,
                sprite_unavailable: scrub_job,
                enqueue_follow_ups: false,
                refresh_op_ed_analysis: false,
            },
        }),
{
    match outcome {
        WorkerOutcome::Done(_, ready) => CompletionFollowUps {
            sprite_ready: *ready,
            sprite_unavailable: false,
            enqueue_follow_ups: true,
            refresh_op_ed_analysis: op_ed_job,
        },
        _ => CompletionFollowUps {
            sprite_ready: false,
            sprite_unavailable: scrub_job,
            enqueue_follow_ups: false,
            refresh_op_ed_analysis: false,
        },
    }
}

// ---------------------------------------------------------------------------------------------
// The model
// ---------------------------------------------------------------------------------------------

/// Some entry carries this number.
pub open spec fn has_number(es: Seq<JobEntry>, n: u64) -> bool {
    exists|i: int| 0 <= i < es.len() && (#[trigger] es[i]).number == n
}

/// The position of the entry with this number.
pub open spec fn position_of(es: Seq<JobEntry>, n: u64) -> int {
    choose|i: int| 0 <= i < es.len() && (#[trigger] es[i]).number == n
}

/// The entry with this number.
pub open spec fn entry_of(es: Seq<JobEntry>, n: u64) -> JobEntry {
    es[position_of(es, n)]
}

/// Running entries.
pub open spec fn count_running(es: Seq<JobEntry>) -> nat
    decreases es.len(),
{
    if es.len() == 0 {
        0
    } else {
        count_running(es.drop_last()) + if es.last().status == JobStatus::Running {
            1nat
        } else {
            0nat
        }
    }
}

/// Running entries of low priority.
pub open spec fn count_running_low(es: Seq<JobEntry>) -> nat
    decreases es.len(),
{
    if es.len() == 0 {
        0
    } else {
        count_running_low(es.drop_last()) + if es.last().status == JobStatus::Running
            && es.last().priority == JobPriority::Low {
            1nat
        } else {
            0nat
        }
    }
}

/// Running entries in a resource pool.
pub open spec fn count_running_in(es: Seq<JobEntry>, rt: JobResourceType) -> nat
    decreases es.len(),
{
    if es.len() == 0 {
        0
    } else {
        count_running_in(es.drop_last(), rt) + if es.last().status == JobStatus::Running
            && es.last().resource_type == rt {
            1nat
        } else {
            0nat
        }
    }
}

/// The history records this job as done.
pub open spec fn done_in(h: Seq<FinishedJob>, n: u64) -> bool {
    exists|j: int| 0 <= j < h.len() && (#[trigger] h[j]).number == n && h[j].status == JobStatus::Done
}

/// Every prerequisite has left the active jobs and is recorded as done.
pub open spec fn prerequisites_done(es: Seq<JobEntry>, h: Seq<FinishedJob>, e: JobEntry) -> bool {
    forall|k: int|
        0 <= k < e.prerequisites@.len() ==> !has_number(es, #[trigger] e.prerequisites@[k])
            && done_in(h, e.prerequisites@[k])
}

/// No two entries carry the same number.
pub open spec fn distinct_numbers(es: Seq<JobEntry>) -> bool {
    forall|i: int, j: int|
        0 <= i < j < es.len() ==> (#[trigger] es[i]).number != (#[trigger] es[j]).number
}

/// Entries are distinct by number and by identity, numbered below `next`, and queued or
/// running.
pub open spec fn entries_ok(es: Seq<JobEntry>, next: u64) -> bool {
    &&& es.len() < u32::MAX
    &&& distinct_numbers(es)
    &&& forall|i: int, j: int|
        0 <= i < j < es.len() ==> (#[trigger] es[i]).identity@ != (#[trigger] es[j]).identity@
    &&& forall|i: int|
        0 <= i < es.len() ==> (#[trigger] es[i]).number < next && (es[i].status
            == JobStatus::Queued || es[i].status == JobStatus::Running)
            && es[i].prerequisites@.len() < MAX_PREREQUISITES
}

/// Prerequisites a job may have (their progress is counted in `u32` steps).
pub const MAX_PREREQUISITES: usize = 0x1000_0000;

/// The queue holds each queued entry once and nothing else.
pub open spec fn queue_matches(es: Seq<JobEntry>, q: Seq<u64>) -> bool {
    &&& q.no_duplicates()
    &&& forall|k: int|
        0 <= k < q.len() ==> has_number(es, #[trigger] q[k]) && entry_of(es, q[k]).status
            == JobStatus::Queued
    &&& forall|i: int|
        0 <= i < es.len() && (#[trigger] es[i]).status == JobStatus::Queued ==> q.contains(
            es[i].number,
        )
}

impl JobBoard {
    pub closed spec fn entries(&self) -> Seq<JobEntry> {
        self.entries@
    }

    pub closed spec fn queue(&self) -> Seq<u64> {
        self.queue@
    }

    pub closed spec fn history(&self) -> Seq<FinishedJob> {
        self.history@
    }

    pub closed spec fn next_number(&self) -> u64 {
        self.next_number
    }

    pub closed spec fn max_parallel(&self) -> u32 {
        self.max_parallel
    }

    pub closed spec fn throttle_until(&self) -> u64 {
        self.throttle_until
    }

    /// The limit of a pool; `None` for jobs outside any pool.
    pub closed spec fn type_limit(&self, rt: JobResourceType) -> Option<u32> {
        match rt {
            JobResourceType::Unpooled => None,
            JobResourceType::Ffmpeg => Some(self.ffmpeg_limit),
            JobResourceType::Chroma => Some(self.chroma_limit),
        }
    }

    /// Numbers are distinct and below the next one; active jobs are queued or running; the queue
    /// holds each queued job once and nothing else; identities of active jobs are distinct; the
    /// history stays within its cap; limits are within `1..=MAX_PARALLEL_CAP`.
    pub closed spec fn wf(&self) -> bool {
        &&& entries_ok(self.entries@, self.next_number)
        &&& queue_matches(self.entries@, self.queue@)
        &&& self.history@.len() <= HISTORY_CAP
        &&& 1 <= self.max_parallel <= MAX_PARALLEL_CAP
        &&& 1 <= self.ffmpeg_limit <= MAX_PARALLEL_CAP
        &&& 1 <= self.chroma_limit <= MAX_PARALLEL_CAP
    }

    /// A queued job may start (before any per-disk staggering): the global cap binds low and
    /// medium jobs, the rescan throttle binds low jobs, its pool's cap binds every job, and
    /// every prerequisite has finished successfully.
    pub open spec fn may_start(&self, n: u64, now: u64) -> bool {
        let es = self.entries();
        let e = entry_of(es, n);
        &&& has_number(es, n)
        &&& e.status == JobStatus::Queued
        &&& (e.priority == JobPriority::High || count_running(es) < self.max_parallel())
        &&& !(e.priority == JobPriority::Low && now < self.throttle_until() && count_running_low(
            es,
        ) >= RESCAN_LOW_PRIORITY_CAP)
        &&& (self.type_limit(e.resource_type) matches Some(cap) ==> count_running_in(
            es,
            e.resource_type,
        ) < cap)
        &&& prerequisites_done(es, self.history(), e)
    }
}

// ---------------------------------------------------------------------------------------------
// Lemmas
// ---------------------------------------------------------------------------------------------

proof fn lemma_entry_of(es: Seq<JobEntry>, i: int)
    requires
        0 <= i < es.len(),
        forall|a: int, b: int|
            0 <= a < b < es.len() ==> (#[trigger] es[a]).number != (#[trigger] es[b]).number,
    ensures
        has_number(es, es[i].number),
        position_of(es, es[i].number) == i,
        entry_of(es, es[i].number) == es[i],
{
    assert(has_number(es, es[i].number));
    let p = position_of(es, es[i].number);
    if p != i {
        if p < i {
            assert(es[p].number != es[i].number);
        } else {
            assert(es[i].number != es[p].number);
        }
    }
}

proof fn lemma_counts_bounded(es: Seq<JobEntry>, rt: JobResourceType)
    ensures
        count_running(es) <= es.len(),
        count_running_low(es) <= es.len(),
        count_running_in(es, rt) <= es.len(),
    decreases es.len(),
{
    if es.len() > 0 {
        lemma_counts_bounded(es.drop_last(), rt);
    }
}

// ---------------------------------------------------------------------------------------------
// Queries
// ---------------------------------------------------------------------------------------------

impl JobBoard {
    /// An empty board with the stored limits (each clamped to `1..=MAX_PARALLEL_CAP`).
    pub fn new(max_parallel: u32, ffmpeg_limit: u32, chroma_limit: u32) -> (r: JobBoard)
        ensures
            r.wf(),
            r.entries() == Seq::<JobEntry>::empty(),
            r.queue() == Seq::<u64>::empty(),
            r.history() == Seq::<FinishedJob>::empty(),
            r.next_number() == 1,
            r.max_parallel() == clamp_limit(max_parallel),
            r.type_limit(JobResourceType::Ffmpeg) == Some(clamp_limit(ffmpeg_limit)),
            r.type_limit(JobResourceType::Chroma) == Some(clamp_limit(chroma_limit)),
            r.throttle_until() == 0,
    {
        JobBoard {
            entries: Vec::new(),
            queue: Vec::new(),
            history: Vec::new(),
            next_number: 1,
            max_parallel: clamp(max_parallel),
            ffmpeg_limit: clamp(ffmpeg_limit),
            chroma_limit: clamp(chroma_limit),
            throttle_until: 0,
        }
    }

    /// An empty board with the default limits.
    pub fn with_defaults() -> (r: JobBoard)
        ensures
            r.wf(),
            r.entries() == Seq::<JobEntry>::empty(),
            r.max_parallel() == DEFAULT_MAX_PARALLEL,
            r.type_limit(JobResourceType::Ffmpeg) == Some(DEFAULT_FFMPEG_MAX_PARALLEL),
            r.type_limit(JobResourceType::Chroma) == Some(DEFAULT_CHROMA_MAX_PARALLEL),
    {
        JobBoard::new(DEFAULT_MAX_PARALLEL, DEFAULT_FFMPEG_MAX_PARALLEL, DEFAULT_CHROMA_MAX_PARALLEL)
    }

    fn index_of(&self, n: u64) -> (r: Option<usize>)
        requires
            self.wf(),
        ensures
            match r {
                Some(i) => i < self.entries@.len() && self.entries@[i as int].number == n
                    && position_of(self.entries@, n) == i && has_number(self.entries@, n),
                None => !has_number(self.entries@, n),
            },
    {
        let mut i: usize = 0;
        while i < self.entries.len()
            invariant
                self.wf(),
                i <= self.entries@.len(),
                forall|k: int| 0 <= k < i ==> (#[trigger] self.entries@[k]).number != n,
            decreases self.entries@.len() - i,
        {
            if self.entries[i].number == n {
                proof {
                    lemma_entry_of(self.entries@, i as int);
                }
                return Some(i);
            }
            i = i + 1;
        }
        None
    }

    /// Whether a job is active (queued or running).
    pub fn is_active(&self, n: u64) -> (r: bool)
        requires
            self.wf(),
        ensures
            r == has_number(self.entries(), n),
    {
        self.index_of(n).is_some()
    }

    /// The number of active jobs.
    pub fn active_count(&self) -> (r: usize)
        ensures
            r == self.entries().len(),
    {
        self.entries.len()
    }

    /// Running jobs: all of them, those of low priority, and those in a pool.
    pub fn running_counts(&self, rt: JobResourceType) -> (r: (u32, u32, u32))
        requires
            self.wf(),
        ensures
            r.0 == count_running(self.entries()),
            r.1 == count_running_low(self.entries()),
            r.2 == count_running_in(self.entries(), rt),
    {
        let mut total: u32 = 0;
        let mut low: u32 = 0;
        let mut pool: u32 = 0;
        let mut i: usize = 0;
        while i < self.entries.len()
            invariant
                i <= self.entries@.len(),
                self.entries@.len() < u32::MAX,
                total == count_running(self.entries@.take(i as int)),
                low == count_running_low(self.entries@.take(i as int)),
                pool == count_running_in(self.entries@.take(i as int), rt),
            decreases self.entries@.len() - i,
        {
            let ghost pre = self.entries@.take(i as int);
            proof {
                lemma_counts_bounded(pre, rt);
                assert(self.entries@.take(i + 1).drop_last() =~= pre);
            }
            let e = &self.entries[i];
            if e.status == JobStatus::Running {
                total = total + 1;
                if e.priority == JobPriority::Low {
                    low = low + 1;
                }
                if e.resource_type == rt {
                    pool = pool + 1;
                }
            }
            i = i + 1;
        }
        assert(self.entries@.take(self.entries@.len() as int) =~= self.entries@);
        (total, low, pool)
    }

    fn done_in_history(&self, n: u64) -> (r: bool)
        ensures
            r == done_in(self.history@, n),
    {
        let mut j: usize = 0;
        while j < self.history.len()
            invariant
                j <= self.history@.len(),
                forall|k: int|
                    0 <= k < j ==> !((#[trigger] self.history@[k]).number == n
                        && self.history@[k].status == JobStatus::Done),
            decreases self.history@.len() - j,
        {
            if self.history[j].number == n && self.history[j].status == JobStatus::Done {
                return true;
            }
            j = j + 1;
        }
        false
    }

    fn prerequisites_met_at(&self, i: usize) -> (r: bool)
        requires
            self.wf(),
            i < self.entries@.len(),
        ensures
            r == prerequisites_done(self.entries@, self.history@, self.entries@[i as int]),
    {
        let e = &self.entries[i];
        let mut k: usize = 0;
        while k < e.prerequisites.len()
            invariant
                self.wf(),
                i < self.entries@.len(),
                e == self.entries@[i as int],
                k <= e.prerequisites@.len(),
                forall|m: int|
                    0 <= m < k ==> !has_number(self.entries@, #[trigger] e.prerequisites@[m])
                        && done_in(self.history@, e.prerequisites@[m]),
            decreases e.prerequisites@.len() - k,
        {
            let p = e.prerequisites[k];
            if self.index_of(p).is_some() {
                return false;
            }
            if !self.done_in_history(p) {
                return false;
            }
            k = k + 1;
        }
        true
    }

    /// Whether every prerequisite of an active job has finished successfully.
    pub fn prerequisites_met(&self, n: u64) -> (r: bool)
        requires
            self.wf(),
        ensures
            r == (has_number(self.entries(), n) && prerequisites_done(
                self.entries(),
                self.history(),
                entry_of(self.entries(), n),
            )),
    {
        match self.index_of(n) {
            Some(i) => self.prerequisites_met_at(i),
            None => false,
        }
    }

    /// The start decision for an active job, before any per-disk staggering.
    pub fn can_start_without_stagger(&self, n: u64, now: u64) -> (r: bool)
        requires
            self.wf(),
        ensures
            r == self.may_start(n, now),
    {
        let i = match self.index_of(n) {
            Some(i) => i,
            None => {
                return false;
            },
        };
        let e = &self.entries[i];
        if e.status != JobStatus::Queued {
            return false;
        }
        let (total, low, pool) = self.running_counts(e.resource_type);
        if e.priority != JobPriority::High && total >= self.max_parallel {
            return false;
        }
        if e.priority == JobPriority::Low && now < self.throttle_until && low
            >= RESCAN_LOW_PRIORITY_CAP {
            return false;
        }
        let limit = match e.resource_type {
            JobResourceType::Unpooled => None,
            JobResourceType::Ffmpeg => Some(self.ffmpeg_limit),
            JobResourceType::Chroma => Some(self.chroma_limit),
        };
        if let Some(cap) = limit {
            if pool >= cap {
                return false;
            }
        }
        self.prerequisites_met_at(i)
    }
}

// ---------------------------------------------------------------------------------------------
// Picking and starting
// ---------------------------------------------------------------------------------------------

/// The entry with its status replaced.
pub open spec fn with_status(e: JobEntry, s: JobStatus) -> JobEntry {
    JobEntry {
        number: e.number,
        identity: e.identity,
        resource_type: e.resource_type,
        priority: e.priority,
        status: s,
        cancelable: e.cancelable,
        prerequisites: e.prerequisites,
        cancels_prerequisites: e.cancels_prerequisites,
    }
}

/// The entry with its priority replaced.
pub open spec fn with_priority(e: JobEntry, p: JobPriority) -> JobEntry {
    JobEntry {
        number: e.number,
        identity: e.identity,
        resource_type: e.resource_type,
        priority: p,
        status: e.status,
        cancelable: e.cancelable,
        prerequisites: e.prerequisites,
        cancels_prerequisites: e.cancels_prerequisites,
    }
}

impl JobBoard {
    /// For each queued job in order: whether it may start now and is not held back by a busy
    /// disk.
    pub open spec fn startable_flags(&self, now: u64, blocked: Seq<u64>) -> Seq<bool> {
        Seq::new(
            self.queue().len(),
            |k: int| self.may_start(self.queue()[k], now) && !blocked.contains(self.queue()[k]),
        )
    }

    /// The priority of each queued job in order.
    pub open spec fn queue_priorities(&self) -> Seq<JobPriority> {
        Seq::new(self.queue().len(), |k: int| entry_of(self.entries(), self.queue()[k]).priority)
    }

    /// The next job to start: the first queued job that may start, passing over low-priority
    /// jobs while a queued medium job may start. `blocked` lists the jobs held back by a busy
    /// disk.
    pub fn next_startable(&self, now: u64, blocked: &[u64]) -> (r: Option<u64>)
        requires
            self.wf(),
        ensures
            match r {
                Some(n) => exists|k: int|
                    0 <= k < self.queue().len() && self.queue()[k] == n && is_first_pickable(
                        self.startable_flags(now, blocked@),
                        self.queue_priorities(),
                        k,
                    ),
                None => forall|k: int|
                    0 <= k < self.queue().len() ==> !pickable(
                        self.startable_flags(now, blocked@),
                        self.queue_priorities(),
                        k,
                    ),
            },
    {
        let ghost flags = self.startable_flags(now, blocked@);
        let ghost pris = self.queue_priorities();
        let mut can: Vec<bool> = Vec::new();
        let mut pri: Vec<JobPriority> = Vec::new();
        let mut k: usize = 0;
        while k < self.queue.len()
            invariant
                self.wf(),
                k <= self.queue@.len(),
                can@.len() == k,
                pri@.len() == k,
                flags == self.startable_flags(now, blocked@),
                pris == self.queue_priorities(),
                forall|m: int| 0 <= m < k ==> can@[m] == flags[m] && pri@[m] == pris[m],
            decreases self.queue@.len() - k,
        {
            let n = self.queue[k];
            let ok = self.can_start_without_stagger(n, now);
            let mut held = false;
            let mut b: usize = 0;
            while b < blocked.len()
                invariant
                    b <= blocked@.len(),
                    held <==> exists|m: int| 0 <= m < b && blocked@[m] == n,
                decreases blocked@.len() - b,
            {
                if blocked[b] == n {
                    held = true;
                }
                b = b + 1;
            }
            let i = self.index_of(n).unwrap();
            can.push(ok && !held);
            pri.push(self.entries[i].priority);
            k = k + 1;
        }
        assert(can@ =~= flags);
        assert(pri@ =~= pris);
        match pick_startable_index(&can, &pri) {
            Some(i) => Some(self.queue[i]),
            None => None,
        }
    }

    fn queue_position(&self, n: u64) -> (r: Option<usize>)
        ensures
            match r {
                Some(k) => k < self.queue@.len() && self.queue@[k as int] == n,
                None => !self.queue@.contains(n),
            },
    {
        let mut k: usize = 0;
        while k < self.queue.len()
            invariant
                k <= self.queue@.len(),
                forall|m: int| 0 <= m < k ==> self.queue@[m] != n,
            decreases self.queue@.len() - k,
        {
            if self.queue[k] == n {
                return Some(k);
            }
            k = k + 1;
        }
        None
    }

    /// Marks a queued job as running and takes it off the queue; `false`, with nothing changed,
    /// when the job is not queued.
    pub fn start(&mut self, n: u64) -> (r: bool)
        requires
            old(self).wf(),
        ensures
            final(self).wf(),
            r == (has_number(old(self).entries(), n) && entry_of(old(self).entries(), n).status
                == JobStatus::Queued),
            r ==> final(self).entries() == old(self).entries().update(
                position_of(old(self).entries(), n),
                with_status(entry_of(old(self).entries(), n), JobStatus::Running),
            ),
            r ==> exists|k: int|
                0 <= k < old(self).queue().len() && old(self).queue()[k] == n && final(self).queue()
                    == old(self).queue().remove(k),
            !r ==> final(self).entries() == old(self).entries() && final(self).queue() == old(
                self,
            ).queue(),
            final(self).history() == old(self).history(),
            final(self).next_number() == old(self).next_number(),
            final(self).max_parallel() == old(self).max_parallel(),
            final(self).throttle_until() == old(self).throttle_until(),
            forall|rt: JobResourceType| final(self).type_limit(rt) == old(self).type_limit(rt),
    {
        let i = match self.index_of(n) {
            Some(i) => i,
            None => {
                return false;
            },
        };
        if self.entries[i].status != JobStatus::Queued {
            return false;
        }
        let ghost old_es = self.entries@;
        let ghost old_q = self.queue@;
        let k = self.queue_position(n).unwrap();
        self.queue.remove(k);
        let mut e = self.entries.remove(i);
        e.status = JobStatus::Running;
        self.entries.insert(i, e);
        proof {
            assert(self.entries@ =~= old_es.update(
                i as int,
                with_status(old_es[i as int], JobStatus::Running),
            ));
            lemma_start_keeps_shape(old_es, old_q, i as int, k as int, self.next_number);
            assert(old_q[k as int] == n && self.queue@ == old_q.remove(k as int));
            assert(old(self).queue()[k as int] == n);
            assert(self.queue() == old(self).queue().remove(k as int));
        }
        true
    }
}

proof fn lemma_start_keeps_shape(es: Seq<JobEntry>, q: Seq<u64>, i: int, k: int, next: u64)
    requires
        entries_ok(es, next),
        queue_matches(es, q),
        0 <= i < es.len(),
        es[i].status == JobStatus::Queued,
        0 <= k < q.len(),
        q[k] == es[i].number,
    ensures
        entries_ok(es.update(i, with_status(es[i], JobStatus::Running)), next),
        queue_matches(es.update(i, with_status(es[i], JobStatus::Running)), q.remove(k)),
{
    let u = es.update(i, with_status(es[i], JobStatus::Running));
    let r = q.remove(k);
    let n = es[i].number;
    assert forall|a: int, b: int| 0 <= a < b < u.len() implies (#[trigger] u[a]).number
        != (#[trigger] u[b]).number by {
        assert(u[a].number == es[a].number);
        assert(u[b].number == es[b].number);
    }
    assert forall|a: int, b: int| 0 <= a < b < u.len() implies (#[trigger] u[a]).identity@
        != (#[trigger] u[b]).identity@ by {
        assert(u[a].identity == es[a].identity);
        assert(u[b].identity == es[b].identity);
    }
    assert forall|a: int| 0 <= a < u.len() implies (#[trigger] u[a]).number < next && (u[a].status
        == JobStatus::Queued || u[a].status == JobStatus::Running) && u[a].prerequisites@.len()
        < MAX_PREREQUISITES by {
        assert(es[a].number < next);
    }
    assert forall|m: int| 0 <= m < r.len() implies has_number(u, #[trigger] r[m]) && entry_of(
        u,
        r[m],
    ).status == JobStatus::Queued by {
        let x = r[m];
        let mm = if m < k {
            m
        } else {
            m + 1
        };
        assert(q[mm] == x);
        assert(x != n);
        let j = position_of(es, x);
        lemma_entry_of(es, j);
        assert(u[j].number == x);
        lemma_entry_of(u, j);
    }
    assert forall|a: int| 0 <= a < u.len() && (#[trigger] u[a]).status == JobStatus::Queued implies r.contains(
        u[a].number,
    ) by {
        assert(a != i);
        assert(es[a].status == JobStatus::Queued);
        assert(q.contains(es[a].number));
        let m = choose|m: int| 0 <= m < q.len() && q[m] == es[a].number;
        if m == k {
            lemma_entry_of(es, a);
            lemma_entry_of(es, i);
        }
        assert(m != k);
        if m < k {
            assert(r[m] == es[a].number);
        } else {
            assert(r[m - 1] == es[a].number);
        }
    }
    assert forall|x: int, y: int| 0 <= x < y < r.len() implies r[x] != r[y] by {
        let xx = if x < k {
            x
        } else {
            x + 1
        };
        let yy = if y < k {
            y
        } else {
            y + 1
        };
        assert(q[xx] == r[x]);
        assert(q[yy] == r[y]);
    }
}

// ---------------------------------------------------------------------------------------------
// Enqueueing and priorities
// ---------------------------------------------------------------------------------------------

/// What happened to a priority change.
#[derive(PartialEq, Eq, Structural, Clone, Copy, Debug)]
pub enum PriorityChange {
    Unchanged,
    Raised,
    Lowered,
}

/// What an enqueue did: the job it refers to, whether it was added, and whether an existing
/// queued job with the same identity had its priority raised.
pub struct EnqueueOutcome {
    pub number: u64,
    pub added: bool,
    pub raised: bool,
}

/// Some active entry has this identity.
pub open spec fn identity_active(es: Seq<JobEntry>, identity: Seq<char>) -> bool {
    exists|i: int| 0 <= i < es.len() && (#[trigger] es[i]).identity@ == identity
}

/// `job not found: job-{n}`.
pub open spec fn not_found_message(n: u64) -> Seq<char> {
    "job not found: job-"@ + decimal(n as nat)
}

/// The queue after moving a job to its front.
pub open spec fn moved_to_front(q: Seq<u64>, n: u64) -> Seq<u64> {
    seq![n] + q.remove(q.index_of(n))
}

proof fn lemma_queue_front_keeps_shape(es: Seq<JobEntry>, q: Seq<u64>, n: u64)
    requires
        queue_matches(es, q),
        q.contains(n),
    ensures
        queue_matches(es, moved_to_front(q, n)),
        moved_to_front(q, n).to_set() == q.to_set(),
{
    let k = q.index_of(n);
    let r = q.remove(k);
    let f = moved_to_front(q, n);
    assert forall|m: int| 0 <= m < f.len() implies has_number(es, #[trigger] f[m]) && entry_of(
        es,
        f[m],
    ).status == JobStatus::Queued by {
        if m == 0 {
            assert(f[m] == q[k]);
        } else {
            let mm = if m - 1 < k {
                m - 1
            } else {
                m
            };
            assert(f[m] == q[mm]);
        }
    }
    assert forall|a: int| 0 <= a < es.len() && (#[trigger] es[a]).status == JobStatus::Queued implies f.contains(
        es[a].number,
    ) by {
        let x = es[a].number;
        assert(q.contains(x));
        let m = choose|m: int| 0 <= m < q.len() && q[m] == x;
        if m == k {
            assert(f[0] == x);
        } else if m < k {
            assert(f[m + 1] == x);
        } else {
            assert(f[m] == x);
        }
    }
    assert forall|x: int, y: int| 0 <= x < y < f.len() implies f[x] != f[y] by {
        let xx = if x == 0 {
            k
        } else if x - 1 < k {
            x - 1
        } else {
            x
        };
        let yy = if y - 1 < k {
            y - 1
        } else {
            y
        };
        assert(f[x] == q[xx]);
        assert(f[y] == q[yy]);
    }
    assert(f.no_duplicates());
    assert forall|x: u64| f.to_set().contains(x) <==> q.to_set().contains(x) by {
        if q.contains(x) {
            let m = choose|m: int| 0 <= m < q.len() && q[m] == x;
            if m == k {
                assert(f[0] == x);
            } else if m < k {
                assert(f[m + 1] == x);
            } else {
                assert(f[m] == x);
            }
        }
        if f.contains(x) {
            let m = choose|m: int| 0 <= m < f.len() && f[m] == x;
            if m == 0 {
                assert(q[k] == x);
            } else if m - 1 < k {
                assert(q[m - 1] == x);
            } else {
                assert(q[m] == x);
            }
        }
    }
    assert(f.to_set() =~= q.to_set());
}

proof fn lemma_priority_keeps_shape(es: Seq<JobEntry>, q: Seq<u64>, i: int, p: JobPriority, next: u64)
    requires
        entries_ok(es, next),
        queue_matches(es, q),
        0 <= i < es.len(),
    ensures
        entries_ok(es.update(i, with_priority(es[i], p)), next),
        queue_matches(es.update(i, with_priority(es[i], p)), q),
        forall|x: u64| has_number(es, x) ==> has_number(es.update(i, with_priority(es[i], p)), x)
            && entry_of(es.update(i, with_priority(es[i], p)), x).status == entry_of(es, x).status,
{
    let u = es.update(i, with_priority(es[i], p));
    assert forall|a: int, b: int| 0 <= a < b < u.len() implies (#[trigger] u[a]).number
        != (#[trigger] u[b]).number by {
        assert(u[a].number == es[a].number);
        assert(u[b].number == es[b].number);
    }
    assert forall|a: int, b: int| 0 <= a < b < u.len() implies (#[trigger] u[a]).identity@
        != (#[trigger] u[b]).identity@ by {
        assert(u[a].identity == es[a].identity);
        assert(u[b].identity == es[b].identity);
    }
    assert forall|a: int| 0 <= a < u.len() implies (#[trigger] u[a]).number < next && (u[a].status
        == JobStatus::Queued || u[a].status == JobStatus::Running) && u[a].prerequisites@.len()
        < MAX_PREREQUISITES by {
        assert(es[a].number < next);
    }
    assert forall|x: u64| has_number(es, x) implies has_number(u, x) && entry_of(u, x).status
        == entry_of(es, x).status by {
        let j = position_of(es, x);
        lemma_entry_of(es, j);
        assert(u[j].number == x);
        lemma_entry_of(u, j);
    }
    assert forall|m: int| 0 <= m < q.len() implies has_number(u, #[trigger] q[m]) && entry_of(
        u,
        q[m],
    ).status == JobStatus::Queued by {
        let j = position_of(es, q[m]);
        lemma_entry_of(es, j);
        assert(u[j].number == q[m]);
        lemma_entry_of(u, j);
    }
    assert forall|a: int| 0 <= a < u.len() && (#[trigger] u[a]).status == JobStatus::Queued implies q.contains(
        u[a].number,
    ) by {
        assert(es[a].status == JobStatus::Queued);
    }
}

/// The queue after adding job `n` at its front or back.
pub open spec fn queue_with(q: Seq<u64>, n: u64, front: bool) -> Seq<u64> {
    if front {
        seq![n] + q
    } else {
        q.push(n)
    }
}

proof fn lemma_add_keeps_shape(es: Seq<JobEntry>, q: Seq<u64>, e: JobEntry, front: bool, next: u64)
    requires
        entries_ok(es, next),
        queue_matches(es, q),
        es.len() + 1 < u32::MAX,
        next < u64::MAX,
        e.number == next,
        e.status == JobStatus::Queued,
        e.prerequisites@.len() < MAX_PREREQUISITES,
        !identity_active(es, e.identity@),
    ensures
        entries_ok(es.push(e), (next + 1) as u64),
        queue_matches(es.push(e), queue_with(q, next, front)),
        forall|x: u64| has_number(es, x) ==> has_number(es.push(e), x) && entry_of(es.push(e), x)
            == entry_of(es, x),
{
    let u = es.push(e);
    let n = next;
    let nq = queue_with(q, n, front);
    assert forall|a: int, b: int| 0 <= a < b < u.len() implies (#[trigger] u[a]).number
        != (#[trigger] u[b]).number by {
        if b == u.len() - 1 {
            assert(es[a].number < n);
        } else {
            assert(u[a] == es[a] && u[b] == es[b]);
        }
    }
    assert forall|a: int, b: int| 0 <= a < b < u.len() implies (#[trigger] u[a]).identity@
        != (#[trigger] u[b]).identity@ by {
        if b == u.len() - 1 {
            assert(es[a].identity@ != e.identity@);
        } else {
            assert(u[a] == es[a] && u[b] == es[b]);
        }
    }
    assert forall|a: int| 0 <= a < u.len() implies (#[trigger] u[a]).number < next + 1 && (
    u[a].status == JobStatus::Queued || u[a].status == JobStatus::Running)
        && u[a].prerequisites@.len() < MAX_PREREQUISITES by {
        if a < es.len() {
            assert(u[a] == es[a]);
        }
    }
    assert forall|x: u64| has_number(es, x) implies has_number(u, x) && entry_of(u, x) == entry_of(
        es,
        x,
    ) by {
        let j = position_of(es, x);
        lemma_entry_of(es, j);
        assert(u[j] == es[j]);
        lemma_entry_of(u, j);
    }
    lemma_entry_of(u, u.len() - 1);
    assert forall|m: int| 0 <= m < nq.len() implies has_number(u, #[trigger] nq[m]) && entry_of(
        u,
        nq[m],
    ).status == JobStatus::Queued by {
        if front {
            if m > 0 {
                assert(nq[m] == q[m - 1]);
            }
        } else {
            if m < q.len() {
                assert(nq[m] == q[m]);
            }
        }
    }
    assert forall|a: int| 0 <= a < u.len() && (#[trigger] u[a]).status == JobStatus::Queued implies nq.contains(
        u[a].number,
    ) by {
        if a == u.len() - 1 {
            if front {
                assert(nq[0] == n);
            } else {
                assert(nq[nq.len() - 1] == n);
            }
        } else {
            assert(u[a] == es[a]);
            assert(q.contains(es[a].number));
            let m = choose|m: int| 0 <= m < q.len() && q[m] == es[a].number;
            if front {
                assert(nq[m + 1] == q[m]);
            } else {
                assert(nq[m] == q[m]);
            }
        }
    }
    assert forall|x: int, y: int| 0 <= x < y < nq.len() implies nq[x] != nq[y] by {
        if front {
            if x == 0 {
                assert(nq[y] == q[y - 1]);
                let j = position_of(es, q[y - 1]);
                assert(es[j].number < n);
            } else {
                assert(nq[x] == q[x - 1] && nq[y] == q[y - 1]);
            }
        } else {
            if y == nq.len() - 1 {
                assert(nq[x] == q[x]);
                let j = position_of(es, q[x]);
                assert(es[j].number < n);
            } else {
                assert(nq[x] == q[x] && nq[y] == q[y]);
            }
        }
    }
}

impl JobBoard {
    fn find_identity_index(&self, identity: &str) -> (r: Option<usize>)
        ensures
            match r {
                Some(i) => i < self.entries@.len() && self.entries@[i as int].identity@
                    == identity@,
                None => !identity_active(self.entries@, identity@),
            },
    {
        let t = crate::text::chars_of(identity);
        let mut i: usize = 0;
        while i < self.entries.len()
            invariant
                i <= self.entries@.len(),
                t@ == identity@,
                forall|k: int| 0 <= k < i ==> (#[trigger] self.entries@[k]).identity@ != identity@,
            decreases self.entries@.len() - i,
        {
            let c = crate::text::chars_of(self.entries[i].identity.as_str());
            if crate::text::eq_chars(&c, &t) {
                return Some(i);
            }
            i = i + 1;
        }
        None
    }

    /// The active job with this identity, if any.
    pub fn find_identity(&self, identity: &str) -> (r: Option<u64>)
        requires
            self.wf(),
        ensures
            match r {
                Some(n) => has_number(self.entries(), n) && entry_of(self.entries(), n).identity@
                    == identity@,
                None => !identity_active(self.entries(), identity@),
            },
    {
        match self.find_identity_index(identity) {
            Some(i) => {
                proof {
                    lemma_entry_of(self.entries@, i as int);
                }
                Some(self.entries[i].number)
            },
            None => None,
        }
    }

    fn change_priority_at(&mut self, i: usize, p: JobPriority)
        requires
            old(self).wf(),
            i < old(self).entries@.len(),
            old(self).entries@[i as int].status == JobStatus::Queued,
        ensures
            final(self).wf(),
            final(self).entries@ == old(self).entries@.update(
                i as int,
                with_priority(old(self).entries@[i as int], p),
            ),
            p == JobPriority::High ==> final(self).queue@ == moved_to_front(
                old(self).queue@,
                old(self).entries@[i as int].number,
            ),
            p != JobPriority::High ==> final(self).queue@ == old(self).queue@,
            final(self).history@ == old(self).history@,
            final(self).next_number == old(self).next_number,
            final(self).max_parallel == old(self).max_parallel,
            final(self).ffmpeg_limit == old(self).ffmpeg_limit,
            final(self).chroma_limit == old(self).chroma_limit,
            final(self).throttle_until == old(self).throttle_until,
    {
        let ghost es = self.entries@;
        let ghost q = self.queue@;
        let mut e = self.entries.remove(i);
        let n = e.number;
        e.priority = p;
        self.entries.insert(i, e);
        proof {
            assert(self.entries@ =~= es.update(i as int, with_priority(es[i as int], p)));
            lemma_priority_keeps_shape(es, q, i as int, p, self.next_number);
            assert(q.contains(n));
        }
        if p == JobPriority::High {
            let k = self.queue_position(n).unwrap();
            proof {
                assert(q.index_of(n) == k) by {
                    let f = q.index_of(n);
                    assert(q[f] == n);
                    if f != k {
                        assert(q.no_duplicates());
                    }
                }
                lemma_queue_front_keeps_shape(self.entries@, q, n);
            }
            self.queue.remove(k);
            self.queue.insert(0, n);
            assert(self.queue@ =~= moved_to_front(q, n));
        }
    }

    /// Changes the priority of a queued job; raising it to high moves it to the front of the
    /// queue.
    pub fn set_priority(&mut self, n: u64, p: JobPriority) -> (r: Result<PriorityChange, String>)
        requires
            old(self).wf(),
        ensures
            final(self).wf(),
            !has_number(old(self).entries(), n) ==> (r matches Err(e) && e@ == not_found_message(n)),
            has_number(old(self).entries(), n) && entry_of(old(self).entries(), n).status
                != JobStatus::Queued ==> (r matches Err(e) && e@
                == "only queued jobs can change priority"@),
            r is Err ==> final(self).entries() == old(self).entries() && final(self).queue() == old(
                self,
            ).queue(),
            has_number(old(self).entries(), n) && entry_of(old(self).entries(), n).status
                == JobStatus::Queued ==> ({
                let e = entry_of(old(self).entries(), n);
                &&& r is Ok
                &&& e.priority == p ==> r == Ok::<PriorityChange, String>(PriorityChange::Unchanged)
                    && final(self).entries() == old(self).entries() && final(self).queue() == old(
                    self,
                ).queue()
                &&& e.priority != p ==> final(self).entries() == old(self).entries().update(
                    position_of(old(self).entries(), n),
                    with_priority(e, p),
                )
                &&& e.priority != p && rank(p) > rank(e.priority) ==> r == Ok::<
                    PriorityChange,
                    String,
                >(PriorityChange::Raised)
                &&& e.priority != p && rank(p) < rank(e.priority) ==> r == Ok::<
                    PriorityChange,
                    String,
                >(PriorityChange::Lowered)
                &&& e.priority != p && p == JobPriority::High ==> final(self).queue()
                    == moved_to_front(old(self).queue(), n)
                &&& e.priority != p && p != JobPriority::High ==> final(self).queue() == old(
                    self,
                ).queue()
            }),
            final(self).history() == old(self).history(),
            final(self).next_number() == old(self).next_number(),
            final(self).max_parallel() == old(self).max_parallel(),
            final(self).throttle_until() == old(self).throttle_until(),
            forall|rt: JobResourceType| final(self).type_limit(rt) == old(self).type_limit(rt),
    {
        let i = match self.index_of(n) {
            Some(i) => i,
            None => {
                let mut v = crate::text::chars_of("job not found: job-");
                let d = crate::text::u64_decimal(n);
                crate::text::append_chars(&mut v, &d);
                return Err(crate::text::string_of(&v));
            },
        };
        if self.entries[i].status != JobStatus::Queued {
            return Err(crate::text::string_from("only queued jobs can change priority"));
        }
        let before = self.entries[i].priority;
        if before == p {
            return Ok(PriorityChange::Unchanged);
        }
        self.change_priority_at(i, p);
        if priority_rank(p) > priority_rank(before) {
            Ok(PriorityChange::Raised)
        } else {
            Ok(PriorityChange::Lowered)
        }
    }

    /// Adds a job under an identity that is not active yet, queued at the front or the back;
    /// when a job with that identity is active, refers to it instead, raising its priority
    /// when it is queued and the new priority ranks higher.
    pub fn enqueue(
        &mut self,
        identity: String,
        resource_type: JobResourceType,
        priority: JobPriority,
        cancelable: bool,
        prerequisites: Vec<u64>,
        cancels_prerequisites: bool,
        front: bool,
    ) -> (r: EnqueueOutcome)
        requires
            old(self).wf(),
            old(self).next_number() < u64::MAX,
            old(self).entries().len() + 1 < u32::MAX,
            prerequisites@.len() < MAX_PREREQUISITES,
        ensures
            final(self).wf(),
            identity_active(old(self).entries(), identity@) ==> ({
                let e = entry_of(old(self).entries(), r.number);
                &&& !r.added
                &&& has_number(old(self).entries(), r.number)
                &&& e.identity@ == identity@
                &&& r.raised == (e.status == JobStatus::Queued && rank(priority) > rank(e.priority))
                &&& r.raised ==> final(self).entries() == old(self).entries().update(
                    position_of(old(self).entries(), r.number),
                    with_priority(e, priority),
                )
                &&& r.raised && priority == JobPriority::High ==> final(self).queue()
                    == moved_to_front(old(self).queue(), r.number)
                &&& r.raised && priority != JobPriority::High ==> final(self).queue() == old(
                    self,
                ).queue()
                &&& !r.raised ==> final(self).entries() == old(self).entries() && final(self).queue()
                    == old(self).queue()
                &&& final(self).next_number() == old(self).next_number()
            }),
            !identity_active(old(self).entries(), identity@) ==> ({
                let e = final(self).entries().last();
                &&& r.added
                &&& !r.raised
                &&& r.number == old(self).next_number()
                &&& final(self).next_number() == old(self).next_number() + 1
                &&& final(self).entries() == old(self).entries().push(e)
                &&& e.number == r.number && e.identity@ == identity@ && e.resource_type
                    == resource_type && e.priority == priority && e.status == JobStatus::Queued
                    && e.cancelable == cancelable && e.prerequisites@ == prerequisites@
                    && e.cancels_prerequisites == cancels_prerequisites
                &&& front ==> final(self).queue() == seq![r.number] + old(self).queue()
                &&& !front ==> final(self).queue() == old(self).queue().push(r.number)
            }),
            final(self).history() == old(self).history(),
            final(self).max_parallel() == old(self).max_parallel(),
            final(self).throttle_until() == old(self).throttle_until(),
            forall|rt: JobResourceType| final(self).type_limit(rt) == old(self).type_limit(rt),
    {
        if let Some(i) = self.find_identity_index(identity.as_str()) {
            proof {
                lemma_entry_of(self.entries@, i as int);
            }
            let n = self.entries[i].number;
            let e = &self.entries[i];
            if e.status == JobStatus::Queued && priority_rank(priority) > priority_rank(e.priority) {
                self.change_priority_at(i, priority);
                return EnqueueOutcome { number: n, added: false, raised: true };
            }
            return EnqueueOutcome { number: n, added: false, raised: false };
        }
        let n = self.next_number;
        let ghost es = self.entries@;
        let ghost q = self.queue@;
        let entry = JobEntry {
            number: n,
            identity,
            resource_type,
            priority,
            status: JobStatus::Queued,
            cancelable,
            prerequisites,
            cancels_prerequisites,
        };
        self.entries.push(entry);
        self.next_number = n + 1;
        if front {
            self.queue.insert(0, n);
        } else {
            self.queue.push(n);
        }
        proof {
            assert(self.entries@ == es.push(self.entries@.last()));
            lemma_add_keeps_shape(es, q, self.entries@.last(), front, n);
            if front {
                assert(self.queue@ == seq![n] + q);
            } else {
                assert(self.queue@ == q.push(n));
            }
        }
        EnqueueOutcome { number: n, added: true, raised: false }
    }
}

// ---------------------------------------------------------------------------------------------
// Finishing
// ---------------------------------------------------------------------------------------------

/// Why a queued job fails when one of its prerequisites ends without success (the short id is
/// the job number as a `u32`).
pub open spec fn prerequisite_reason(short: u32, status: JobStatus) -> Seq<char> {
    match status {
        JobStatus::Canceled => "Prerequisite #"@ + decimal(short as nat) + " was canceled"@,
        JobStatus::Failed => "Prerequisite #"@ + decimal(short as nat) + " failed"@,
        _ => "Prerequisite #"@ + decimal(short as nat) + " did not complete"@,
    }
}

/// The history after one more outcome: newest first, at most `HISTORY_CAP` kept.
pub open spec fn record_outcome(h: Seq<FinishedJob>, f: FinishedJob) -> Seq<FinishedJob> {
    let g = seq![f] + h;
    if g.len() > HISTORY_CAP {
        g.take(HISTORY_CAP as int)
    } else {
        g
    }
}

/// The history after a list of outcomes, recorded in order.
pub open spec fn record_outcomes(h: Seq<FinishedJob>, outs: Seq<JobOutcome>) -> Seq<FinishedJob>
    decreases outs.len(),
{
    if outs.len() == 0 {
        h
    } else {
        record_outcome(
            record_outcomes(h, outs.drop_last()),
            FinishedJob { number: outs.last().number, status: outs.last().status },
        )
    }
}

/// The numbers of a list of outcomes.
pub open spec fn outcome_numbers(p: Seq<JobOutcome>) -> Set<u64> {
    Set::new(|x: u64| exists|j: int| 0 <= j < p.len() && (#[trigger] p[j]).number == x)
}

/// `after` keeps, unchanged, exactly the entries of `before` whose numbers are not in `gone`.
pub open spec fn kept_except(before: Seq<JobEntry>, after: Seq<JobEntry>, gone: Set<u64>) -> bool {
    &&& forall|x: u64| #[trigger]
        has_number(after, x) <==> (has_number(before, x) && !gone.contains(x))
    &&& forall|x: u64| has_number(after, x) ==> #[trigger] entry_of(after, x) == entry_of(before, x)
}

/// No queued entry waits on job `x`.
pub open spec fn no_dependents(es: Seq<JobEntry>, x: u64) -> bool {
    forall|i: int|
        0 <= i < es.len() && (#[trigger] es[i]).status == JobStatus::Queued
            ==> !es[i].prerequisites@.contains(x)
}

/// Outcome `j` of the list is the failure of a queued job caused by the earlier outcome `c`,
/// which was not a success and was one of its prerequisites.
pub open spec fn caused_by(es: Seq<JobEntry>, p: Seq<JobOutcome>, j: int, c: int) -> bool {
    &&& 0 <= c < j
    &&& p[c].status != JobStatus::Done
    &&& entry_of(es, p[j].number).prerequisites@.contains(p[c].number)
    &&& p[j].message matches Some(m) && m@ == prerequisite_reason(p[c].number as u32, p[c].status)
}

/// The outcomes `p` of finishing a job: each names a job that was active in `es`; those after
/// the first are queued jobs that failed, each caused by an earlier outcome in the list.
pub open spec fn cascade_ok(es: Seq<JobEntry>, p: Seq<JobOutcome>) -> bool {
    &&& forall|j: int| 0 <= j < p.len() ==> has_number(es, (#[trigger] p[j]).number)
    &&& forall|j: int|
        1 <= j < p.len() ==> (#[trigger] p[j]).status == JobStatus::Failed && entry_of(
            es,
            p[j].number,
        ).status == JobStatus::Queued && exists|c: int| #[trigger] caused_by(es, p, j, c)
}

proof fn lemma_record_outcomes_append(h: Seq<FinishedJob>, a: Seq<JobOutcome>, b: Seq<JobOutcome>)
    ensures
        record_outcomes(h, a + b) == record_outcomes(record_outcomes(h, a), b),
    decreases b.len(),
{
    if b.len() == 0 {
        assert(a + b =~= a);
    } else {
        lemma_record_outcomes_append(h, a, b.drop_last());
        assert((a + b).drop_last() =~= a + b.drop_last());
        assert((a + b).last() == b.last());
    }
}

proof fn lemma_record_outcomes_cap(h: Seq<FinishedJob>, p: Seq<JobOutcome>)
    requires
        h.len() <= HISTORY_CAP,
    ensures
        record_outcomes(h, p).len() <= HISTORY_CAP,
    decreases p.len(),
{
    if p.len() > 0 {
        lemma_record_outcomes_cap(h, p.drop_last());
    }
}

proof fn lemma_kept_except_trans(
    a: Seq<JobEntry>,
    b: Seq<JobEntry>,
    c: Seq<JobEntry>,
    g1: Set<u64>,
    g2: Set<u64>,
)
    requires
        kept_except(a, b, g1),
        kept_except(b, c, g2),
    ensures
        kept_except(a, c, g1.union(g2)),
{
    assert forall|x: u64| #[trigger]
        has_number(c, x) <==> (has_number(a, x) && !g1.union(g2).contains(x)) by {
        assert(has_number(c, x) <==> (has_number(b, x) && !g2.contains(x)));
        assert(has_number(b, x) <==> (has_number(a, x) && !g1.contains(x)));
    }
    assert forall|x: u64| has_number(c, x) implies #[trigger] entry_of(c, x) == entry_of(a, x) by {
        assert(has_number(b, x));
        assert(entry_of(c, x) == entry_of(b, x));
    }
}

proof fn lemma_no_dependents_kept(b: Seq<JobEntry>, c: Seq<JobEntry>, g: Set<u64>, x: u64)
    requires
        kept_except(b, c, g),
        distinct_numbers(c),
        no_dependents(b, x),
    ensures
        no_dependents(c, x),
{
    assert forall|i: int|
        0 <= i < c.len() && (#[trigger] c[i]).status == JobStatus::Queued implies !c[i].prerequisites@.contains(
        x,
    ) by {
        lemma_entry_of(c, i);
        let y = c[i].number;
        assert(has_number(c, y));
        assert(entry_of(c, y) == entry_of(b, y));
        let j = position_of(b, y);
        assert(0 <= j < b.len() && b[j].number == y);
        assert(b[j] == c[i]);
    }
}

/// The queue with the jobs of `g` taken out, the others in their order.
pub open spec fn without(q: Seq<u64>, g: Set<u64>) -> Seq<u64>
    decreases q.len(),
{
    if q.len() == 0 {
        q
    } else if g.contains(q.last()) {
        without(q.drop_last(), g)
    } else {
        without(q.drop_last(), g).push(q.last())
    }
}

proof fn lemma_without_disjoint(q: Seq<u64>, g: Set<u64>)
    requires
        forall|x: u64| q.contains(x) ==> !g.contains(x),
    ensures
        without(q, g) == q,
    decreases q.len(),
{
    if q.len() > 0 {
        assert(q.contains(q.last()));
        assert forall|x: u64| q.drop_last().contains(x) implies !g.contains(x) by {
            let i = choose|i: int| 0 <= i < q.drop_last().len() && q.drop_last()[i] == x;
            assert(q[i] == x);
        }
        lemma_without_disjoint(q.drop_last(), g);
        assert(q.drop_last().push(q.last()) =~= q);
    }
}

proof fn lemma_without_union(q: Seq<u64>, g1: Set<u64>, g2: Set<u64>)
    ensures
        without(without(q, g1), g2) == without(q, g1.union(g2)),
    decreases q.len(),
{
    if q.len() > 0 {
        let l = q.last();
        let w = without(q.drop_last(), g1);
        lemma_without_union(q.drop_last(), g1, g2);
        if !g1.contains(l) {
            assert(w.push(l).drop_last() =~= w);
            assert(w.push(l).last() == l);
        }
    }
}


proof fn lemma_without_excludes(q: Seq<u64>, g: Set<u64>, x: u64)
    requires
        g.contains(x),
    ensures
        !without(q, g).contains(x),
    decreases q.len(),
{
    if q.len() > 0 {
        lemma_without_excludes(q.drop_last(), g, x);
        let w = without(q.drop_last(), g);
        if !g.contains(q.last()) {
            assert forall|j: int| 0 <= j < w.push(q.last()).len() implies w.push(q.last())[j] != x by {
                if j < w.len() {
                    assert(w.push(q.last())[j] == w[j]);
                }
            }
        }
    }
}

proof fn lemma_remove_is_without(q: Seq<u64>, k: int)
    requires
        q.no_duplicates(),
        0 <= k < q.len(),
    ensures
        q.remove(k) == without(q, set![q[k]]),
    decreases q.len(),
{
    let n = q[k];
    let d = q.drop_last();
    if k == q.len() - 1 {
        assert forall|x: u64| d.contains(x) implies !set![n].contains(x) by {
            let i = choose|i: int| 0 <= i < d.len() && d[i] == x;
            assert(q[i] == x);
        }
        lemma_without_disjoint(d, set![n]);
        assert(q.remove(k) =~= d);
    } else {
        assert(q.last() != n);
        lemma_remove_is_without(d, k);
        assert(q.remove(k) =~= d.remove(k).push(q.last()));
    }
}

proof fn lemma_seq_remove(q: Seq<u64>, k: int)
    requires
        q.no_duplicates(),
        0 <= k < q.len(),
    ensures
        q.remove(k).no_duplicates(),
        forall|x: u64| q.remove(k).contains(x) <==> (q.contains(x) && x != q[k]),
{
    let r = q.remove(k);
    assert forall|x: int, y: int| 0 <= x < y < r.len() implies r[x] != r[y] by {
        let xx = if x < k { x } else { x + 1 };
        let yy = if y < k { y } else { y + 1 };
        assert(r[x] == q[xx] && r[y] == q[yy]);
    }
    assert forall|x: u64| r.contains(x) <==> (q.contains(x) && x != q[k]) by {
        if r.contains(x) {
            let m = choose|m: int| 0 <= m < r.len() && r[m] == x;
            let mm = if m < k { m } else { m + 1 };
            assert(q[mm] == x);
        }
        if q.contains(x) && x != q[k] {
            let m = choose|m: int| 0 <= m < q.len() && q[m] == x;
            if m < k {
                assert(r[m] == x);
            } else {
                assert(r[m - 1] == x);
            }
        }
    }
}

proof fn lemma_remove_keeps_shape(es: Seq<JobEntry>, q0: Seq<u64>, q: Seq<u64>, i: int, next: u64)
    requires
        entries_ok(es, next),
        queue_matches(es, q0),
        0 <= i < es.len(),
        q.no_duplicates(),
        forall|x: u64| q.contains(x) <==> (q0.contains(x) && x != es[i].number),
    ensures
        entries_ok(es.remove(i), next),
        queue_matches(es.remove(i), q),
        kept_except(es, es.remove(i), set![es[i].number]),
{
    let u = es.remove(i);
    let n = es[i].number;
    assert forall|a: int| 0 <= a < u.len() implies (#[trigger] u[a]) == es[if a < i {
        a
    } else {
        a + 1
    }] by {}
    assert forall|a: int, b: int| 0 <= a < b < u.len() implies (#[trigger] u[a]).number
        != (#[trigger] u[b]).number by {
        let aa = if a < i { a } else { a + 1 };
        let bb = if b < i { b } else { b + 1 };
        assert(u[a] == es[aa] && u[b] == es[bb]);
    }
    assert forall|a: int, b: int| 0 <= a < b < u.len() implies (#[trigger] u[a]).identity@
        != (#[trigger] u[b]).identity@ by {
        let aa = if a < i { a } else { a + 1 };
        let bb = if b < i { b } else { b + 1 };
        assert(u[a] == es[aa] && u[b] == es[bb]);
    }
    assert forall|a: int| 0 <= a < u.len() implies (#[trigger] u[a]).number < next && (u[a].status
        == JobStatus::Queued || u[a].status == JobStatus::Running) && u[a].prerequisites@.len()
        < MAX_PREREQUISITES by {
        let aa = if a < i { a } else { a + 1 };
        assert(u[a] == es[aa]);
    }
    assert forall|x: u64| #[trigger] has_number(u, x) <==> (has_number(es, x) && !set![n].contains(
        x,
    )) by {
        if has_number(u, x) {
            let a = choose|a: int| 0 <= a < u.len() && (#[trigger] u[a]).number == x;
            let aa = if a < i { a } else { a + 1 };
            assert(u[a] == es[aa]);
            assert(es[aa].number == x);
            if x == n {
                lemma_entry_of(es, aa);
                lemma_entry_of(es, i);
            }
        }
        if has_number(es, x) && x != n {
            let a = position_of(es, x);
            assert(a != i);
            let aa = if a < i { a } else { a - 1 };
            assert(u[aa] == es[a]);
        }
    }
    assert forall|x: u64| has_number(u, x) implies #[trigger] entry_of(u, x) == entry_of(es, x) by {
        let a = position_of(u, x);
        let aa = if a < i { a } else { a + 1 };
        assert(u[a] == es[aa]);
        lemma_entry_of(u, a);
        lemma_entry_of(es, aa);
    }
    assert forall|m: int| 0 <= m < q.len() implies has_number(u, #[trigger] q[m]) && entry_of(
        u,
        q[m],
    ).status == JobStatus::Queued by {
        assert(q.contains(q[m]));
        assert(q0.contains(q[m]) && q[m] != n);
        let mm = choose|mm: int| 0 <= mm < q0.len() && q0[mm] == q[m];
        assert(has_number(es, q0[mm]));
        assert(has_number(u, q[m]));
    }
    assert forall|a: int| 0 <= a < u.len() && (#[trigger] u[a]).status == JobStatus::Queued implies q.contains(
        u[a].number,
    ) by {
        let aa = if a < i { a } else { a + 1 };
        assert(u[a] == es[aa]);
        assert(q0.contains(es[aa].number));
        assert(es[aa].number != n) by {
            lemma_entry_of(es, aa);
            lemma_entry_of(es, i);
        }
    }
}

proof fn lemma_outcome_numbers_append(a: Seq<JobOutcome>, b: Seq<JobOutcome>)
    ensures
        outcome_numbers(a + b) =~= outcome_numbers(a).union(outcome_numbers(b)),
{
    assert forall|x: u64| outcome_numbers(a + b).contains(x) <==> outcome_numbers(a).union(
        outcome_numbers(b),
    ).contains(x) by {
        if outcome_numbers(a + b).contains(x) {
            let j = choose|j: int| 0 <= j < (a + b).len() && (#[trigger] (a + b)[j]).number == x;
            if j < a.len() {
                assert(a[j] == (a + b)[j]);
            } else {
                assert(b[j - a.len()] == (a + b)[j]);
            }
        }
        if outcome_numbers(a).contains(x) {
            let j = choose|j: int| 0 <= j < a.len() && (#[trigger] a[j]).number == x;
            assert((a + b)[j] == a[j]);
        }
        if outcome_numbers(b).contains(x) {
            let j = choose|j: int| 0 <= j < b.len() && (#[trigger] b[j]).number == x;
            assert((a + b)[a.len() + j] == b[j]);
        }
    }
}

impl JobBoard {
    fn queued_dependents(&self, n: u64) -> (r: Vec<u64>)
        requires
            self.wf(),
        ensures
            forall|x: u64|
                has_number(self.entries@, x) && entry_of(self.entries@, x).status
                    == JobStatus::Queued && entry_of(self.entries@, x).prerequisites@.contains(n)
                    ==> r@.contains(x),
            forall|k: int|
                0 <= k < r@.len() ==> has_number(self.entries@, #[trigger] r@[k]) && entry_of(
                    self.entries@,
                    r@[k],
                ).prerequisites@.contains(n),
    {
        let mut r: Vec<u64> = Vec::new();
        let mut i: usize = 0;
        while i < self.entries.len()
            invariant
                self.wf(),
                i <= self.entries@.len(),
                forall|k: int|
                    0 <= k < i && (#[trigger] self.entries@[k]).status == JobStatus::Queued
                        && self.entries@[k].prerequisites@.contains(n) ==> r@.contains(
                        self.entries@[k].number,
                    ),
                forall|k: int|
                    0 <= k < r@.len() ==> has_number(self.entries@, #[trigger] r@[k]) && entry_of(
                        self.entries@,
                        r@[k],
                    ).prerequisites@.contains(n),
            decreases self.entries@.len() - i,
        {
            let e = &self.entries[i];
            if e.status == JobStatus::Queued {
                let mut found = false;
                let mut k: usize = 0;
                while k < e.prerequisites.len()
                    invariant
                        k <= e.prerequisites@.len(),
                        found <==> exists|m: int| 0 <= m < k && e.prerequisites@[m] == n,
                    decreases e.prerequisites@.len() - k,
                {
                    if e.prerequisites[k] == n {
                        found = true;
                    }
                    k = k + 1;
                }
                if found {
                    proof {
                        lemma_entry_of(self.entries@, i as int);
                    }
                    let ghost r0 = r@;
                    r.push(e.number);
                    proof {
                        assert(r@[r0.len() as int] == e.number);
                        assert forall|x: u64| r0.contains(x) implies r@.contains(x) by {
                            let m = choose|m: int| 0 <= m < r0.len() && r0[m] == x;
                            assert(r@[m] == x);
                        }
                    }
                } else {
                    proof {
                        assert(!e.prerequisites@.contains(n));
                    }
                }
            }
            i = i + 1;
        }
        proof {
            assert forall|x: u64|
                has_number(self.entries@, x) && entry_of(self.entries@, x).status
                    == JobStatus::Queued && entry_of(self.entries@, x).prerequisites@.contains(n)
                    implies r@.contains(x) by {
                let k = position_of(self.entries@, x);
                assert(self.entries@[k].number == x);
            }
        }
        r
    }

    #[verifier::rlimit(50)]
    fn finish_rec(
        &mut self,
        n: u64,
        status: JobStatus,
        message: Option<String>,
        out: &mut Vec<JobOutcome>,
    )
        requires
            old(self).wf(),
        ensures
            final(self).wf(),
            final(self).entries@.len() <= old(self).entries@.len(),
            final(self).next_number == old(self).next_number,
            final(self).max_parallel == old(self).max_parallel,
            final(self).ffmpeg_limit == old(self).ffmpeg_limit,
            final(self).chroma_limit == old(self).chroma_limit,
            final(self).throttle_until == old(self).throttle_until,
            final(out)@.len() >= old(out)@.len(),
            final(out)@.take(old(out)@.len() as int) == old(out)@,
            ({
                let p = final(out)@.skip(old(out)@.len() as int);
                let es = old(self).entries@;
                &&& !has_number(es, n) ==> p.len() == 0 && final(self).entries@ == es
                    && final(self).queue@ == old(self).queue@
                    && final(self).history@ == old(self).history@
                &&& has_number(es, n) ==> p.len() >= 1 && p[0].number == n && p[0].status
                    == status && p[0].message == message
                &&& status == JobStatus::Done ==> p.len() <= 1
                &&& cascade_ok(es, p)
                &&& kept_except(es, final(self).entries@, outcome_numbers(p))
                &&& forall|j: int|
                    0 <= j < p.len() && (#[trigger] p[j]).status != JobStatus::Done
                        ==> no_dependents(final(self).entries@, p[j].number)
                &&& final(self).history@ == record_outcomes(old(self).history@, p)
                &&& final(self).queue@ == without(old(self).queue@, outcome_numbers(p))
            }),
        decreases old(self).entries@.len(),
    {
        let ghost out0 = out@;
        let i = match self.index_of(n) {
            Some(i) => i,
            None => {
                assert(out@.skip(out0.len() as int) =~= Seq::<JobOutcome>::empty());
                assert(out@.take(out0.len() as int) =~= out0);
                assert(outcome_numbers(Seq::<JobOutcome>::empty()) =~= Set::<u64>::empty());
                proof {
                    lemma_without_disjoint(self.queue@, Set::<u64>::empty());
                }
                return;
            },
        };
        let ghost es0 = self.entries@;
        let ghost q0 = self.queue@;
        let ghost h0 = self.history@;
        match self.queue_position(n) {
            Some(k) => {
                proof {
                    lemma_seq_remove(q0, k as int);
                    lemma_remove_is_without(q0, k as int);
                }
                self.queue.remove(k);
            },
            None => {
                proof {
                    assert forall|x: u64| q0.contains(x) implies !set![n].contains(x) by {}
                    lemma_without_disjoint(q0, set![n]);
                }
            },
        }
        assert(self.queue@ == without(q0, set![n]));
        self.entries.remove(i);
        proof {
            lemma_remove_keeps_shape(es0, q0, self.queue@, i as int, self.next_number);
        }
        let f = FinishedJob { number: n, status };
        self.history.insert(0, f);
        if self.history.len() > HISTORY_CAP {
            self.history.pop();
        }
        proof {
            assert(self.history@ =~= record_outcome(h0, f));
        }
        out.push(JobOutcome { number: n, status, message });
        let ghost first = out@.last();
        proof {
            let p = out@.skip(out0.len() as int);
            assert(p =~= seq![first]);
            assert(p.drop_last() =~= Seq::<JobOutcome>::empty());
            assert(record_outcomes(h0, p.drop_last()) == h0);
            assert(p.last().number == n && p.last().status == status);
            assert(self.history@ == record_outcomes(h0, p));
            assert(outcome_numbers(p) =~= set![n]) by {
                assert forall|x: u64| outcome_numbers(p).contains(x) <==> set![n].contains(x) by {
                    if x == n {
                        assert(p[0].number == n);
                    }
                }
            }
            assert(out@.take(out0.len() as int) =~= out0);
        }
        if status == JobStatus::Done {
            return;
        }
        let reason = prerequisite_reason_text(n as u32, status);
        let deps = self.queued_dependents(n);
        let ghost es1 = self.entries@;
        proof {
            assert forall|m: int| 0 <= m < deps@.len() implies has_number(es0, #[trigger] deps@[m])
                && entry_of(es0, deps@[m]).prerequisites@.contains(n) by {
                assert(has_number(es1, deps@[m]));
                assert(entry_of(es1, deps@[m]) == entry_of(es0, deps@[m]));
            }
        }
        proof {
            assert forall|x: u64| waits_on(self.entries@, x, n) implies exists|m: int|
                0 <= m < deps@.len() && deps@[m] == x by {
                assert(deps@.contains(x));
            }
        }
        let mut d: usize = 0;
        while d < deps.len()
            invariant
                self.wf(),
                self.entries@.len() < es0.len(),
                es0 == old(self).entries@,
                h0 == old(self).history@,
                q0 == old(self).queue@,
                out0 == old(out)@,
                status != JobStatus::Done,
                first.number == n && first.status == status && first.message == message,
                reason@ == prerequisite_reason(n as u32, status),
                self.next_number == old(self).next_number,
                self.max_parallel == old(self).max_parallel,
                self.ffmpeg_limit == old(self).ffmpeg_limit,
                self.chroma_limit == old(self).chroma_limit,
                self.throttle_until == old(self).throttle_until,
                out@.len() > out0.len(),
                out@.take(out0.len() as int) == out0,
                out@[out0.len() as int] == first,
                has_number(es0, n),
                forall|m: int| 0 <= m < deps@.len() ==> has_number(es0, #[trigger] deps@[m])
                    && entry_of(es0, deps@[m]).prerequisites@.contains(n),
                forall|x: u64|
                    waits_on(self.entries@, x, n) ==> exists|m: int|
                        d <= m < deps@.len() && deps@[m] == x,
                ({
                    let p = out@.skip(out0.len() as int);
                    &&& cascade_ok(es0, p)
                    &&& kept_except(es0, self.entries@, outcome_numbers(p))
                    &&& forall|j: int|
                        1 <= j < p.len() && (#[trigger] p[j]).status != JobStatus::Done
                            ==> no_dependents(self.entries@, p[j].number)
                    &&& self.history@ == record_outcomes(h0, p)
                    &&& self.queue@ == without(q0, outcome_numbers(p))
                }),
            decreases deps@.len() - d,
        {
            let dn = deps[d];
            let ghost pre_es = self.entries@;
            let ghost pre_out = out@;
            let ghost pre_h = self.history@;
            let ghost pre_q = self.queue@;
            let mut recursed = false;
            match self.index_of(dn) {
                Some(j) => {
                    if self.entries[j].status == JobStatus::Queued {
                        proof {
                            lemma_entry_of(pre_es, j as int);
                        }
                        let r2 = reason.clone();
                        self.finish_rec(dn, JobStatus::Failed, Some(r2), out);
                        recursed = true;
                        proof {
                            let a = out0.len() as int;
                            let b = pre_out.len() as int;
                            lemma_out_parts(out0, pre_out, out@);
                            let pold = pre_out.skip(a);
                            let pd = out@.skip(b);
                            assert(pold[0] == first);
                            lemma_cascade_concat(es0, pre_es, pold, pd, dn, reason@);
                            lemma_no_deps_concat(pre_es, self.entries@, pold, pd);
                            lemma_outcome_numbers_append(pold, pd);
                            lemma_kept_except_trans(
                                es0,
                                pre_es,
                                self.entries@,
                                outcome_numbers(pold),
                                outcome_numbers(pd),
                            );
                            lemma_record_outcomes_append(h0, pold, pd);
                            lemma_without_union(q0, outcome_numbers(pold), outcome_numbers(pd));
                            assert(outcome_numbers(pd).contains(dn)) by {
                                assert(pd[0].number == dn);
                            }
                        }
                    }
                },
                None => {},
            }
            proof {
                if !recursed {
                    assert(self.entries@ == pre_es);
                    assert(out@ == pre_out);
                }
                lemma_deps_advance(
                    pre_es,
                    self.entries@,
                    deps@,
                    d as int,
                    n,
                    outcome_numbers(out@.skip(pre_out.len() as int)),
                    recursed,
                );
            }
            d = d + 1;
        }
        proof {
            let p = out@.skip(out0.len() as int);
            assert(p[0] == first);
            assert(no_dependents(self.entries@, n)) by {
                assert forall|a: int|
                    0 <= a < self.entries@.len() && (#[trigger] self.entries@[a]).status
                        == JobStatus::Queued implies !self.entries@[a].prerequisites@.contains(n) by {
                    lemma_entry_of(self.entries@, a);
                    if self.entries@[a].prerequisites@.contains(n) {
                        assert(waits_on(self.entries@, self.entries@[a].number, n));
                    }
                }
            }
        }
    }
}

/// Active job `x` is queued and waits on job `n`.
pub open spec fn waits_on(es: Seq<JobEntry>, x: u64, n: u64) -> bool {
    has_number(es, x) && entry_of(es, x).status == JobStatus::Queued && entry_of(
        es,
        x,
    ).prerequisites@.contains(n)
}

proof fn lemma_out_parts(out0: Seq<JobOutcome>, mid_out: Seq<JobOutcome>, fin_out: Seq<JobOutcome>)
    requires
        mid_out.len() > out0.len(),
        mid_out.take(out0.len() as int) == out0,
        fin_out.len() >= mid_out.len(),
        fin_out.take(mid_out.len() as int) == mid_out,
    ensures
        fin_out.len() > out0.len(),
        fin_out.take(out0.len() as int) == out0,
        fin_out.skip(out0.len() as int) == mid_out.skip(out0.len() as int) + fin_out.skip(
            mid_out.len() as int,
        ),
        fin_out[out0.len() as int] == mid_out[out0.len() as int],
{
    let a = out0.len() as int;
    let b = mid_out.len() as int;
    assert forall|k: int| 0 <= k < b implies fin_out[k] == mid_out[k] by {
        assert(fin_out[k] == fin_out.take(b)[k]);
    }
    assert forall|k: int| 0 <= k < a implies mid_out[k] == out0[k] by {
        assert(mid_out[k] == mid_out.take(a)[k]);
    }
    assert(fin_out.take(a) =~= out0);
    assert(fin_out.skip(a) =~= mid_out.skip(a) + fin_out.skip(b));
}

proof fn lemma_cascade_concat_at(
    es0: Seq<JobEntry>,
    mid_es: Seq<JobEntry>,
    pold: Seq<JobOutcome>,
    pd: Seq<JobOutcome>,
    j: int,
)
    requires
        pold.len() >= 1,
        pold[0].status != JobStatus::Done,
        cascade_ok(es0, pold),
        cascade_ok(mid_es, pd),
        pd.len() >= 1,
        pd[0].status == JobStatus::Failed,
        pd[0].message matches Some(m) && m@ == prerequisite_reason(
            pold[0].number as u32,
            pold[0].status,
        ),
        entry_of(es0, pd[0].number).prerequisites@.contains(pold[0].number),
        entry_of(mid_es, pd[0].number).status == JobStatus::Queued,
        forall|k: int| 0 <= k < pd.len() ==> entry_of(es0, (#[trigger] pd[k]).number) == entry_of(
            mid_es,
            pd[k].number,
        ),
        1 <= j < pold.len() + pd.len(),
    ensures
        (pold + pd)[j].status == JobStatus::Failed,
        entry_of(es0, (pold + pd)[j].number).status == JobStatus::Queued,
        exists|c: int| #[trigger] caused_by(es0, pold + pd, j, c),
{
    let p = pold + pd;
    let k0 = pold.len() as int;
    if j < k0 {
        assert(p[j] == pold[j]);
        assert(1 <= j < pold.len());
        assert(pold[j].status == JobStatus::Failed);
        let c = choose|c: int| #[trigger] caused_by(es0, pold, j, c);
        assert(p[c] == pold[c]);
        assert(caused_by(es0, p, j, c));
    } else {
        let jj = j - k0;
        assert(p[j] == pd[jj]);
        assert(entry_of(es0, pd[jj].number) == entry_of(mid_es, pd[jj].number));
        if jj == 0 {
            assert(p[0] == pold[0]);
            assert(caused_by(es0, p, j, 0));
        } else {
            assert(pd[jj].status == JobStatus::Failed);
            let c = choose|c: int| #[trigger] caused_by(mid_es, pd, jj, c);
            assert(p[k0 + c] == pd[c]);
            assert(caused_by(es0, p, j, k0 + c));
        }
    }
}

proof fn lemma_cascade_concat(
    es0: Seq<JobEntry>,
    mid_es: Seq<JobEntry>,
    pold: Seq<JobOutcome>,
    pd: Seq<JobOutcome>,
    dn: u64,
    reason: Seq<char>,
)
    requires
        pold.len() >= 1,
        pold[0].status != JobStatus::Done,
        cascade_ok(es0, pold),
        kept_except(es0, mid_es, outcome_numbers(pold)),
        has_number(mid_es, dn),
        entry_of(mid_es, dn).status == JobStatus::Queued,
        entry_of(es0, dn).prerequisites@.contains(pold[0].number),
        reason == prerequisite_reason(pold[0].number as u32, pold[0].status),
        pd.len() >= 1,
        pd[0].number == dn,
        pd[0].status == JobStatus::Failed,
        pd[0].message matches Some(m) && m@ == reason,
        cascade_ok(mid_es, pd),
    ensures
        cascade_ok(es0, pold + pd),
{
    let p = pold + pd;
    let k0 = pold.len() as int;
    assert forall|k: int| 0 <= k < pd.len() implies has_number(es0, (#[trigger] pd[k]).number)
        && entry_of(es0, pd[k].number) == entry_of(mid_es, pd[k].number) by {
        assert(has_number(mid_es, pd[k].number));
    }
    assert forall|j: int| 0 <= j < p.len() implies has_number(es0, (#[trigger] p[j]).number) by {
        if j >= k0 {
            assert(p[j] == pd[j - k0]);
        } else {
            assert(p[j] == pold[j]);
        }
    }
    assert forall|j: int| 1 <= j < p.len() implies (#[trigger] p[j]).status == JobStatus::Failed
        && entry_of(es0, p[j].number).status == JobStatus::Queued && exists|c: int| #[trigger]
        caused_by(es0, p, j, c) by {
        lemma_cascade_concat_at(es0, mid_es, pold, pd, j);
    }
}

proof fn lemma_no_deps_concat(
    mid_es: Seq<JobEntry>,
    fin_es: Seq<JobEntry>,
    pold: Seq<JobOutcome>,
    pd: Seq<JobOutcome>,
)
    requires
        distinct_numbers(fin_es),
        kept_except(mid_es, fin_es, outcome_numbers(pd)),
        forall|j: int|
            1 <= j < pold.len() && (#[trigger] pold[j]).status != JobStatus::Done
                ==> no_dependents(mid_es, pold[j].number),
        forall|j: int|
            0 <= j < pd.len() && (#[trigger] pd[j]).status != JobStatus::Done ==> no_dependents(
                fin_es,
                pd[j].number,
            ),
    ensures
        forall|j: int|
            1 <= j < (pold + pd).len() && (#[trigger] (pold + pd)[j]).status != JobStatus::Done
                ==> no_dependents(fin_es, (pold + pd)[j].number),
{
    let p = pold + pd;
    assert forall|j: int|
        1 <= j < p.len() && (#[trigger] p[j]).status != JobStatus::Done implies no_dependents(
        fin_es,
        p[j].number,
    ) by {
        if j < pold.len() {
            assert(p[j] == pold[j]);
            lemma_no_dependents_kept(mid_es, fin_es, outcome_numbers(pd), pold[j].number);
        } else {
            assert(p[j] == pd[j - pold.len()]);
        }
    }
}

proof fn lemma_deps_advance(
    pre_es: Seq<JobEntry>,
    post_es: Seq<JobEntry>,
    deps: Seq<u64>,
    d: int,
    n: u64,
    g: Set<u64>,
    recursed: bool,
)
    requires
        0 <= d < deps.len(),
        forall|x: u64| waits_on(pre_es, x, n) ==> exists|m: int| d <= m < deps.len() && deps[m] == x,
        recursed ==> kept_except(pre_es, post_es, g) && g.contains(deps[d]),
        !recursed ==> post_es == pre_es && !(has_number(pre_es, deps[d]) && entry_of(
            pre_es,
            deps[d],
        ).status == JobStatus::Queued),
    ensures
        forall|x: u64|
            waits_on(post_es, x, n) ==> exists|m: int| d + 1 <= m < deps.len() && deps[m] == x,
{
    assert forall|x: u64| waits_on(post_es, x, n) implies exists|m: int|
        d + 1 <= m < deps.len() && deps[m] == x by {
        if recursed {
            assert(has_number(post_es, x));
            assert(has_number(pre_es, x) && !g.contains(x));
            assert(entry_of(post_es, x) == entry_of(pre_es, x));
        }
        assert(waits_on(pre_es, x, n));
        let m = choose|m: int| d <= m < deps.len() && deps[m] == x;
        assert(m != d);
    }
}

/// What a cancel request did.
pub enum CancelOutcome {
    /// The job was queued: it is finished as canceled, with these outcomes (the job first, then
    /// the queued jobs that failed with it).
    Finished(Vec<JobOutcome>),
    /// The job is running: its worker must be told to stop; it finishes when the worker ends.
    SignalWorker,
}


/// What a cancel request did: to the job itself and, for a job that cancels its prerequisites,
/// to each of them that was active and cancelable, in the order they were handled (each before
/// the jobs it cancelled in turn).
pub struct CancelReport {
    pub outcome: CancelOutcome,
    pub children: Vec<(u64, CancelOutcome)>,
}

/// The outcomes recorded by cancelling one job.
pub open spec fn cancel_outs(o: CancelOutcome) -> Seq<JobOutcome> {
    match o {
        CancelOutcome::Finished(v) => v@,
        CancelOutcome::SignalWorker => Seq::empty(),
    }
}

/// The outcomes recorded by a list of cancellations, in order.
pub open spec fn children_outs(ch: Seq<(u64, CancelOutcome)>) -> Seq<JobOutcome>
    decreases ch.len(),
{
    if ch.len() == 0 {
        Seq::empty()
    } else {
        children_outs(ch.drop_last()) + cancel_outs(ch.last().1)
    }
}

/// Job `c` was cancelled: it finished as canceled, or it is still running and its worker must
/// be told to stop.
pub open spec fn child_cancelled(es: Seq<JobEntry>, c: u64, o: CancelOutcome) -> bool {
    match o {
        CancelOutcome::Finished(v) => v@.len() >= 1 && v@[0].number == c && v@[0].status
            == JobStatus::Canceled,
        CancelOutcome::SignalWorker => has_number(es, c) && entry_of(es, c).status
            == JobStatus::Running,
    }
}

/// Every job of `g` was active and queued.
pub open spec fn all_queued_in(es: Seq<JobEntry>, g: Set<u64>) -> bool {
    forall|x: u64| g.contains(x) ==> has_number(es, x) && entry_of(es, x).status == JobStatus::Queued
}

/// The job is active, cancelable and still queued.
pub open spec fn queued_cancelable(es: Seq<JobEntry>, c: u64) -> bool {
    has_number(es, c) && entry_of(es, c).cancelable && entry_of(es, c).status == JobStatus::Queued
}

proof fn lemma_children_outs_push(ch: Seq<(u64, CancelOutcome)>, x: (u64, CancelOutcome))
    ensures
        children_outs(ch.push(x)) == children_outs(ch) + cancel_outs(x.1),
{
    assert(ch.push(x).drop_last() =~= ch);
}

proof fn lemma_children_outs_cons(x: (u64, CancelOutcome), rest: Seq<(u64, CancelOutcome)>)
    ensures
        children_outs(seq![x] + rest) == cancel_outs(x.1) + children_outs(rest),
    decreases rest.len(),
{
    if rest.len() == 0 {
        assert((seq![x] + rest).drop_last() =~= Seq::<(u64, CancelOutcome)>::empty());
        assert((seq![x] + rest).last() == x);
        assert(rest =~= Seq::<(u64, CancelOutcome)>::empty());
        assert(Seq::<JobOutcome>::empty() + cancel_outs(x.1) =~= cancel_outs(x.1));
        assert(cancel_outs(x.1) + Seq::<JobOutcome>::empty() =~= cancel_outs(x.1));
    } else {
        lemma_children_outs_cons(x, rest.drop_last());
        assert((seq![x] + rest).drop_last() =~= seq![x] + rest.drop_last());
        assert((seq![x] + rest).last() == rest.last());
        assert(cancel_outs(x.1) + children_outs(rest.drop_last()) + cancel_outs(rest.last().1)
            =~= cancel_outs(x.1) + (children_outs(rest.drop_last()) + cancel_outs(rest.last().1)));
    }
}

proof fn lemma_cancel_step(
    e0: Seq<JobEntry>,
    e1: Seq<JobEntry>,
    e2: Seq<JobEntry>,
    h0: Seq<FinishedJob>,
    h1: Seq<FinishedJob>,
    h2: Seq<FinishedJob>,
    q0: Seq<u64>,
    q1: Seq<u64>,
    q2: Seq<u64>,
    p1: Seq<JobOutcome>,
    p2: Seq<JobOutcome>,
)
    requires
        kept_except(e0, e1, outcome_numbers(p1)),
        h1 == record_outcomes(h0, p1),
        q1 == without(q0, outcome_numbers(p1)),
        all_queued_in(e0, outcome_numbers(p1)),
        kept_except(e1, e2, outcome_numbers(p2)),
        h2 == record_outcomes(h1, p2),
        q2 == without(q1, outcome_numbers(p2)),
        all_queued_in(e1, outcome_numbers(p2)),
    ensures
        kept_except(e0, e2, outcome_numbers(p1 + p2)),
        h2 == record_outcomes(h0, p1 + p2),
        q2 == without(q0, outcome_numbers(p1 + p2)),
        all_queued_in(e0, outcome_numbers(p1 + p2)),
{
    lemma_kept_except_trans(e0, e1, e2, outcome_numbers(p1), outcome_numbers(p2));
    lemma_outcome_numbers_append(p1, p2);
    lemma_record_outcomes_append(h0, p1, p2);
    lemma_without_union(q0, outcome_numbers(p1), outcome_numbers(p2));
    assert forall|x: u64| outcome_numbers(p1 + p2).contains(x) implies has_number(e0, x)
        && entry_of(e0, x).status == JobStatus::Queued by {
        if outcome_numbers(p2).contains(x) {
            assert(has_number(e1, x));
            assert(entry_of(e1, x) == entry_of(e0, x));
        }
    }
}

proof fn lemma_records_kept(
    e1: Seq<JobEntry>,
    e2: Seq<JobEntry>,
    g: Set<u64>,
    recs: Seq<(u64, CancelOutcome)>,
)
    requires
        kept_except(e1, e2, g),
        all_queued_in(e1, g),
        forall|k: int| 0 <= k < recs.len() ==> child_cancelled(e1, (#[trigger] recs[k]).0, recs[k].1),
    ensures
        forall|k: int| 0 <= k < recs.len() ==> child_cancelled(e2, (#[trigger] recs[k]).0, recs[k].1),
{
    assert forall|k: int| 0 <= k < recs.len() implies child_cancelled(
        e2,
        (#[trigger] recs[k]).0,
        recs[k].1,
    ) by {
        let c = recs[k].0;
        if recs[k].1 is SignalWorker {
            assert(child_cancelled(e1, c, recs[k].1));
            assert(!g.contains(c));
            assert(has_number(e2, c));
            assert(entry_of(e2, c) == entry_of(e1, c));
        }
    }
}


proof fn lemma_children_outs_append(a: Seq<(u64, CancelOutcome)>, b: Seq<(u64, CancelOutcome)>)
    ensures
        children_outs(a + b) == children_outs(a) + children_outs(b),
    decreases b.len(),
{
    if b.len() == 0 {
        assert(a + b =~= a);
        assert(children_outs(a) + Seq::<JobOutcome>::empty() =~= children_outs(a));
    } else {
        lemma_children_outs_append(a, b.drop_last());
        assert((a + b).drop_last() =~= a + b.drop_last());
        assert((a + b).last() == b.last());
        assert(children_outs(a) + children_outs(b.drop_last()) + cancel_outs(b.last().1)
            =~= children_outs(a) + (children_outs(b.drop_last()) + cancel_outs(b.last().1)));
    }
}

proof fn lemma_record_parts(
    out0: Seq<(u64, CancelOutcome)>,
    mid: Seq<(u64, CancelOutcome)>,
    fin: Seq<(u64, CancelOutcome)>,
)
    requires
        mid.len() >= out0.len(),
        mid.take(out0.len() as int) == out0,
        fin.len() >= mid.len(),
        fin.take(mid.len() as int) == mid,
    ensures
        fin.len() >= out0.len(),
        fin.take(out0.len() as int) == out0,
        fin.skip(out0.len() as int) == mid.skip(out0.len() as int) + fin.skip(mid.len() as int),
{
    let a = out0.len() as int;
    let b = mid.len() as int;
    assert forall|k: int| 0 <= k < b implies fin[k] == mid[k] by {
        assert(fin[k] == fin.take(b)[k]);
    }
    assert forall|k: int| 0 <= k < a implies mid[k] == out0[k] by {
        assert(mid[k] == mid.take(a)[k]);
    }
    assert(fin.take(a) =~= out0);
    assert(fin.skip(a) =~= mid.skip(a) + fin.skip(b));
}


/// The record of cancellations `recs` took the board from entries `e0`, history `h0` and queue
/// `q0` to `e`, `h` and `q`: exactly the jobs whose outcomes were recorded left (each of them
/// queued at the start), in that order in the history and out of the queue, and each record
/// holds.
#[verifier::opaque]
pub open spec fn cancel_trace(
    e0: Seq<JobEntry>,
    h0: Seq<FinishedJob>,
    q0: Seq<u64>,
    e: Seq<JobEntry>,
    h: Seq<FinishedJob>,
    q: Seq<u64>,
    recs: Seq<(u64, CancelOutcome)>,
) -> bool {
    let p = children_outs(recs);
    &&& kept_except(e0, e, outcome_numbers(p))
    &&& h == record_outcomes(h0, p)
    &&& q == without(q0, outcome_numbers(p))
    &&& all_queued_in(e0, outcome_numbers(p))
    &&& forall|k: int| 0 <= k < recs.len() ==> child_cancelled(e, (#[trigger] recs[k]).0, recs[k].1)
}

proof fn lemma_trace_empty(e0: Seq<JobEntry>, h0: Seq<FinishedJob>, q0: Seq<u64>)
    ensures
        cancel_trace(e0, h0, q0, e0, h0, q0, Seq::<(u64, CancelOutcome)>::empty()),
{
    reveal(cancel_trace);
    let p = children_outs(Seq::<(u64, CancelOutcome)>::empty());
    assert(p =~= Seq::<JobOutcome>::empty());
    assert(outcome_numbers(p) =~= Set::<u64>::empty());
    lemma_without_disjoint(q0, Set::<u64>::empty());
}

proof fn lemma_trace_first(
    e0: Seq<JobEntry>,
    h0: Seq<FinishedJob>,
    q0: Seq<u64>,
    e1: Seq<JobEntry>,
    h1: Seq<FinishedJob>,
    q1: Seq<u64>,
    n: u64,
    o: CancelOutcome,
)
    requires
        o matches CancelOutcome::Finished(outs) ==> {
            &&& outs@.len() >= 1
            &&& outs@[0].number == n
            &&& outs@[0].status == JobStatus::Canceled
            &&& queued_cancelable(e0, n)
            &&& cascade_ok(e0, outs@)
            &&& kept_except(e0, e1, outcome_numbers(outs@))
            &&& h1 == record_outcomes(h0, outs@)
            &&& q1 == without(q0, outcome_numbers(outs@))
        },
        o is SignalWorker ==> has_number(e0, n) && entry_of(e0, n).status == JobStatus::Running
            && e1 == e0 && h1 == h0 && q1 == q0,
    ensures
        cancel_trace(e0, h0, q0, e1, h1, q1, seq![(n, o)]),
{
    reveal(cancel_trace);
    lemma_children_outs_push(Seq::<(u64, CancelOutcome)>::empty(), (n, o));
    assert(seq![(n, o)] =~= Seq::<(u64, CancelOutcome)>::empty().push((n, o)));
    assert(Seq::<JobOutcome>::empty() + cancel_outs(o) =~= cancel_outs(o));
    let p = cancel_outs(o);
    match o {
        CancelOutcome::Finished(outs) => {
            assert forall|x: u64| outcome_numbers(p).contains(x) implies has_number(e0, x)
                && entry_of(e0, x).status == JobStatus::Queued by {
                let j = choose|j: int| 0 <= j < p.len() && (#[trigger] p[j]).number == x;
                if j >= 1 {
                    assert(has_number(e0, p[j].number));
                }
            }
        },
        CancelOutcome::SignalWorker => {
            assert(outcome_numbers(p) =~= Set::<u64>::empty());
            lemma_without_disjoint(q0, Set::<u64>::empty());
        },
    }
    assert(seq![(n, o)][0] == (n, o));
}

proof fn lemma_trace_kept(
    e0: Seq<JobEntry>,
    h0: Seq<FinishedJob>,
    q0: Seq<u64>,
    e: Seq<JobEntry>,
    h: Seq<FinishedJob>,
    q: Seq<u64>,
    recs: Seq<(u64, CancelOutcome)>,
)
    requires
        cancel_trace(e0, h0, q0, e, h, q, recs),
    ensures
        kept_except(e0, e, outcome_numbers(children_outs(recs))),
        all_queued_in(e0, outcome_numbers(children_outs(recs))),
        h == record_outcomes(h0, children_outs(recs)),
        q == without(q0, outcome_numbers(children_outs(recs))),
        forall|k: int| 0 <= k < recs.len() ==> child_cancelled(e, (#[trigger] recs[k]).0, recs[k].1),
{
    reveal(cancel_trace);
}

proof fn lemma_trace_step(
    e0: Seq<JobEntry>,
    h0: Seq<FinishedJob>,
    q0: Seq<u64>,
    e1: Seq<JobEntry>,
    h1: Seq<FinishedJob>,
    q1: Seq<u64>,
    e2: Seq<JobEntry>,
    h2: Seq<FinishedJob>,
    q2: Seq<u64>,
    a: Seq<(u64, CancelOutcome)>,
    b: Seq<(u64, CancelOutcome)>,
)
    requires
        cancel_trace(e0, h0, q0, e1, h1, q1, a),
        cancel_trace(e1, h1, q1, e2, h2, q2, b),
    ensures
        cancel_trace(e0, h0, q0, e2, h2, q2, a + b),
{
    reveal(cancel_trace);
    let pa = children_outs(a);
    let pb = children_outs(b);
    lemma_children_outs_append(a, b);
    lemma_cancel_step(e0, e1, e2, h0, h1, h2, q0, q1, q2, pa, pb);
    lemma_records_kept(e1, e2, outcome_numbers(pb), a);
    let ab = a + b;
    assert forall|k: int| 0 <= k < ab.len() implies child_cancelled(e2, (#[trigger] ab[k]).0, ab[k].1) by {
        if k < a.len() {
            assert(ab[k] == a[k]);
        } else {
            assert(ab[k] == b[k - a.len()]);
        }
    }
}

fn copy_numbers(v: &Vec<u64>) -> (r: Vec<u64>)
    ensures
        r@ == v@,
{
    let mut r: Vec<u64> = Vec::new();
    let mut i: usize = 0;
    while i < v.len()
        invariant
            i <= v@.len(),
            r@ == v@.take(i as int),
        decreases v@.len() - i,
    {
        r.push(v[i]);
        i = i + 1;
        assert(r@ =~= v@.take(i as int));
    }
    assert(v@.take(v@.len() as int) =~= v@);
    r
}


proof fn lemma_status_update(es: Seq<JobEntry>, i: int, st: JobStatus)
    requires
        0 <= i < es.len(),
        distinct_numbers(es),
    ensures
        ({
            let u = es.update(i, with_status(es[i], st));
            &&& distinct_numbers(u)
            &&& forall|x: u64| #[trigger] has_number(u, x) <==> has_number(es, x)
            &&& forall|x: u64|
                has_number(es, x) ==> #[trigger] entry_of(u, x) == if x == es[i].number {
                    with_status(es[i], st)
                } else {
                    entry_of(es, x)
                }
        }),
{
    let u = es.update(i, with_status(es[i], st));
    assert forall|a: int, b: int| 0 <= a < b < u.len() implies (#[trigger] u[a]).number != (
    #[trigger] u[b]).number by {
        assert(u[a].number == es[a].number);
        assert(u[b].number == es[b].number);
    }
    assert forall|x: u64| #[trigger] has_number(u, x) <==> has_number(es, x) by {
        if has_number(u, x) {
            let j = choose|j: int| 0 <= j < u.len() && (#[trigger] u[j]).number == x;
            assert(es[j].number == x);
        }
        if has_number(es, x) {
            let j = choose|j: int| 0 <= j < es.len() && (#[trigger] es[j]).number == x;
            assert(u[j].number == x);
        }
    }
    assert forall|x: u64| has_number(es, x) implies #[trigger] entry_of(u, x) == if x
        == es[i].number {
        with_status(es[i], st)
    } else {
        entry_of(es, x)
    } by {
        let j = choose|j: int| 0 <= j < es.len() && (#[trigger] es[j]).number == x;
        lemma_entry_of(es, j);
        assert(u[j].number == x);
        lemma_entry_of(u, j);
    }
}

impl JobBoard {
    /// Starts queued jobs as long as one may start, each time the one `next_startable` picks;
    /// returns the started jobs in the order they were started. Afterwards no queued job may
    /// start.
    pub fn start_all_startable(&mut self, now: u64, blocked: &[u64]) -> (r: Vec<u64>)
        requires
            old(self).wf(),
        ensures
            final(self).wf(),
            forall|k: int|
                0 <= k < final(self).queue().len() ==> !pickable(
                    final(self).startable_flags(now, blocked@),
                    final(self).queue_priorities(),
                    k,
                ),
            r@.no_duplicates(),
            forall|x: u64|
                #[trigger] r@.contains(x) ==> has_number(old(self).entries(), x) && entry_of(
                    old(self).entries(),
                    x,
                ).status == JobStatus::Queued,
            forall|x: u64| #[trigger]
                has_number(final(self).entries(), x) <==> has_number(old(self).entries(), x),
            forall|x: u64|
                has_number(old(self).entries(), x) ==> #[trigger] entry_of(final(self).entries(), x)
                    == if r@.contains(x) {
                    with_status(entry_of(old(self).entries(), x), JobStatus::Running)
                } else {
                    entry_of(old(self).entries(), x)
                },
            final(self).queue() == without(old(self).queue(), r@.to_set()),
            final(self).history() == old(self).history(),
            final(self).next_number() == old(self).next_number(),
            final(self).max_parallel() == old(self).max_parallel(),
            final(self).throttle_until() == old(self).throttle_until(),
            forall|rt: JobResourceType| final(self).type_limit(rt) == old(self).type_limit(rt),
    {
        let ghost es0 = self.entries@;
        let ghost q0 = self.queue@;
        let mut r: Vec<u64> = Vec::new();
        proof {
            assert(r@.to_set() =~= Set::<u64>::empty());
            lemma_without_disjoint(q0, Set::<u64>::empty());
        }
        loop
            invariant
                self.wf(),
                es0 == old(self).entries@,
                q0 == old(self).queue@,
                r@.no_duplicates(),
                forall|x: u64|
                    #[trigger] r@.contains(x) ==> has_number(es0, x) && entry_of(es0, x).status
                        == JobStatus::Queued,
                forall|x: u64| #[trigger] has_number(self.entries@, x) <==> has_number(es0, x),
                forall|x: u64|
                    has_number(es0, x) ==> #[trigger] entry_of(self.entries@, x) == if r@.contains(
                        x,
                    ) {
                        with_status(entry_of(es0, x), JobStatus::Running)
                    } else {
                        entry_of(es0, x)
                    },
                self.queue@ == without(q0, r@.to_set()),
                self.history@ == old(self).history@,
                self.next_number == old(self).next_number,
                self.max_parallel == old(self).max_parallel,
                self.ffmpeg_limit == old(self).ffmpeg_limit,
                self.chroma_limit == old(self).chroma_limit,
                self.throttle_until == old(self).throttle_until,
            ensures
                self.wf(),
                forall|k: int|
                    0 <= k < self.queue().len() ==> !pickable(
                        self.startable_flags(now, blocked@),
                        self.queue_priorities(),
                        k,
                    ),
                r@.no_duplicates(),
                forall|x: u64|
                    #[trigger] r@.contains(x) ==> has_number(es0, x) && entry_of(es0, x).status
                        == JobStatus::Queued,
                forall|x: u64| #[trigger] has_number(self.entries@, x) <==> has_number(es0, x),
                forall|x: u64|
                    has_number(es0, x) ==> #[trigger] entry_of(self.entries@, x) == if r@.contains(
                        x,
                    ) {
                        with_status(entry_of(es0, x), JobStatus::Running)
                    } else {
                        entry_of(es0, x)
                    },
                self.queue@ == without(q0, r@.to_set()),
                self.history@ == old(self).history@,
                self.next_number == old(self).next_number,
                self.max_parallel == old(self).max_parallel,
                self.ffmpeg_limit == old(self).ffmpeg_limit,
                self.chroma_limit == old(self).chroma_limit,
                self.throttle_until == old(self).throttle_until,
            decreases self.queue@.len(),
        {
            let n = match self.next_startable(now, blocked) {
                None => {
                    break;
                },
                Some(n) => n,
            };
            let ghost es1 = self.entries@;
            let ghost q1 = self.queue@;
            let ghost r1 = r@;
            proof {
                let k = choose|k: int| 0 <= k < q1.len() && q1[k] == n;
                assert(q1[k] == n);
                assert(has_number(es1, n) && entry_of(es1, n).status == JobStatus::Queued);
                if r1.contains(n) {
                    assert(r1.to_set().contains(n));
                    assert(!without(q0, r1.to_set()).contains(n)) by {
                        lemma_without_excludes(q0, r1.to_set(), n);
                    }
                    assert(q1.contains(n));
                }
                assert(!r1.contains(n));
            }
            let started = self.start(n);
            proof {
                assert(started);
                let i = position_of(es1, n);
                lemma_entry_of(es1, i);
                lemma_status_update(es1, i, JobStatus::Running);
                let k = choose|k: int|
                    0 <= k < q1.len() && q1[k] == n && self.queue@ == q1.remove(k);
                lemma_remove_is_without(q1, k);
                lemma_without_union(q0, r1.to_set(), set![n]);
                assert(self.type_limit(JobResourceType::Ffmpeg) == old(self).type_limit(
                    JobResourceType::Ffmpeg,
                ));
                assert(self.type_limit(JobResourceType::Chroma) == old(self).type_limit(
                    JobResourceType::Chroma,
                ));
            }
            r.push(n);
            proof {
                assert forall|x: u64| #[trigger] r@.contains(x) <==> (r1.contains(x) || x == n) by {
                    if r@.contains(x) {
                        let j = choose|j: int| 0 <= j < r@.len() && r@[j] == x;
                        if j < r1.len() {
                            assert(r1[j] == x);
                        }
                    }
                    if r1.contains(x) {
                        let j = choose|j: int| 0 <= j < r1.len() && r1[j] == x;
                        assert(r@[j] == x);
                    }
                    if x == n {
                        assert(r@[r1.len() as int] == n);
                    }
                }
                assert(r@.to_set() =~= r1.to_set().union(set![n]));
            }
        }
        r
    }

    /// Records that a job ended with `status` (its worker returned, or it failed or was canceled
    /// while queued). The job leaves the active jobs and its outcome is recorded; when it did not
    /// succeed, every queued job waiting on it fails too, and so on. Returns the outcomes in the
    /// order they were recorded, the job itself first; nothing when the job is not active. The
    /// jobs left in the queue keep their order.
    pub fn finish(&mut self, n: u64, status: JobStatus, message: Option<String>) -> (r: Vec<
        JobOutcome,
    >)
        requires
            old(self).wf(),
        ensures
            final(self).wf(),
            !has_number(old(self).entries(), n) ==> r@.len() == 0 && final(self).entries()
                == old(self).entries() && final(self).queue() == old(self).queue()
                && final(self).history() == old(self).history(),
            has_number(old(self).entries(), n) ==> r@.len() >= 1 && r@[0].number == n
                && r@[0].status == status && r@[0].message == message,
            status == JobStatus::Done ==> r@.len() <= 1,
            cascade_ok(old(self).entries(), r@),
            kept_except(old(self).entries(), final(self).entries(), outcome_numbers(r@)),
            forall|j: int|
                0 <= j < r@.len() && (#[trigger] r@[j]).status != JobStatus::Done
                    ==> no_dependents(final(self).entries(), r@[j].number),
            final(self).history() == record_outcomes(old(self).history(), r@),
            final(self).queue() == without(old(self).queue(), outcome_numbers(r@)),
            final(self).next_number() == old(self).next_number(),
            final(self).max_parallel() == old(self).max_parallel(),
            final(self).throttle_until() == old(self).throttle_until(),
            forall|rt: JobResourceType| final(self).type_limit(rt) == old(self).type_limit(rt),
    {
        let mut out: Vec<JobOutcome> = Vec::new();
        self.finish_rec(n, status, message, &mut out);
        assert(out@.skip(0) =~= out@);
        out
    }

    /// Records what a job's worker returned: the job ends with the status and message of the
    /// outcome ([`worker_status`], [`worker_message`]), as [`JobBoard::finish`] records it.
    pub fn complete_worker(&mut self, n: u64, outcome: WorkerOutcome) -> (r: Vec<JobOutcome>)
        requires
            old(self).wf(),
        ensures
            final(self).wf(),
            !has_number(old(self).entries(), n) ==> r@.len() == 0 && final(self).entries()
                == old(self).entries() && final(self).queue() == old(self).queue()
                && final(self).history() == old(self).history(),
            has_number(old(self).entries(), n) ==> r@.len() >= 1 && r@[0].number == n
                && r@[0].status == worker_status(outcome) && (r@[0].message matches Some(m)
                && m@ == worker_message(outcome)),
            worker_status(outcome) == JobStatus::Done ==> r@.len() <= 1,
            cascade_ok(old(self).entries(), r@),
            kept_except(old(self).entries(), final(self).entries(), outcome_numbers(r@)),
            final(self).history() == record_outcomes(old(self).history(), r@),
            final(self).queue() == without(old(self).queue(), outcome_numbers(r@)),
    {
        let ghost status = worker_status(outcome);
        let ghost text = worker_message(outcome);
        match outcome {
            WorkerOutcome::Done(message, _) => self.finish(n, JobStatus::Done, Some(message)),
            WorkerOutcome::Failed(message) => self.finish(n, JobStatus::Failed, Some(message)),
            WorkerOutcome::Canceled => {
                let message = string_from("Canceled");
                self.finish(n, JobStatus::Canceled, Some(message))
            },
        }
    }

    /// Cancels job `n` and, when it cancels its prerequisites, each of them in turn (down to
    /// `depth` levels), recording each cancelled job in `out`.
    #[verifier::spinoff_prover]
    #[verifier::rlimit(100)]
    fn cancel_tree(&mut self, n: u64, depth: usize, out: &mut Vec<(u64, CancelOutcome)>) -> (r:
        Result<(), String>)
        requires
            old(self).wf(),
        ensures
            final(self).wf(),
            final(out)@.len() >= old(out)@.len(),
            final(out)@.take(old(out)@.len() as int) == old(out)@,
            final(self).next_number == old(self).next_number,
            final(self).max_parallel == old(self).max_parallel,
            final(self).ffmpeg_limit == old(self).ffmpeg_limit,
            final(self).chroma_limit == old(self).chroma_limit,
            final(self).throttle_until == old(self).throttle_until,
            cancel_trace(
                old(self).entries@,
                old(self).history@,
                old(self).queue@,
                final(self).entries@,
                final(self).history@,
                final(self).queue@,
                final(out)@.skip(old(out)@.len() as int),
            ),
            ({
                let es = old(self).entries@;
                let newc = final(out)@.skip(old(out)@.len() as int);
                &&& !has_number(es, n) ==> (r matches Err(e) && e@ == not_found_message(n))
                &&& has_number(es, n) && !entry_of(es, n).cancelable ==> (r matches Err(e) && e@
                    == "job is not cancelable"@)
                &&& r is Err ==> newc.len() == 0 && final(self).entries@ == es && final(self).queue@
                    == old(self).queue@ && final(self).history@ == old(self).history@
                &&& r is Ok ==> has_number(es, n) && entry_of(es, n).cancelable && newc.len() >= 1
                    && newc[0].0 == n
                &&& r is Ok && !(entry_of(es, n).cancels_prerequisites && depth > 0) ==> newc.len()
                    == 1
                &&& queued_cancelable(es, n) ==> r is Ok && !has_number(final(self).entries@, n)
                &&& queued_cancelable(es, n) ==> (newc[0].1 matches CancelOutcome::Finished(outs) && {
                    &&& outs@.len() >= 1
                    &&& outs@[0].number == n
                    &&& outs@[0].status == JobStatus::Canceled
                    &&& (outs@[0].message matches Some(m) && m@ == "Canceled by user"@)
                    &&& cascade_ok(es, outs@)
                    &&& forall|j: int|
                        0 <= j < outs@.len() && (#[trigger] outs@[j]).status != JobStatus::Done
                            ==> no_dependents(final(self).entries@, outs@[j].number)
                })
                &&& has_number(es, n) && entry_of(es, n).cancelable && entry_of(es, n).status
                    == JobStatus::Running ==> (r is Ok && newc[0].1 is SignalWorker)
                &&& r is Ok && entry_of(es, n).cancels_prerequisites && depth > 0 ==> forall|c: u64|
                    entry_of(es, n).prerequisites@.contains(c) ==> !queued_cancelable(
                        final(self).entries@,
                        c,
                    )
            }),
        decreases depth, 1int,
    {
        let ghost es = self.entries@;
        let ghost h0 = self.history@;
        let ghost q0 = self.queue@;
        let ghost out0 = out@;
        let (flag, prereqs) = match self.index_of(n) {
            Some(i) => (self.entries[i].cancels_prerequisites, copy_numbers(&self.entries[i].prerequisites)),
            None => (false, Vec::new()),
        };
        let res = self.cancel_single(n);
        proof {
            assert(self.type_limit(JobResourceType::Ffmpeg) == old(self).type_limit(
                JobResourceType::Ffmpeg,
            ));
            assert(self.type_limit(JobResourceType::Chroma) == old(self).type_limit(
                JobResourceType::Chroma,
            ));
        }
        let o = match res {
            Ok(o) => o,
            Err(e) => {
                proof {
                    assert(out@.skip(out0.len() as int) =~= Seq::<(u64, CancelOutcome)>::empty());
                    assert(out@.take(out0.len() as int) =~= out0);
                    lemma_trace_empty(es, h0, q0);
                }
                return Err(e);
            },
        };
        let ghost og = o;
        proof {
            lemma_trace_first(es, h0, q0, self.entries@, self.history@, self.queue@, n, og);
        }
        out.push((n, o));
        proof {
            assert(out@.skip(out0.len() as int) =~= seq![(n, og)]);
            assert(out@.take(out0.len() as int) =~= out0);
        }
        if flag && depth > 0 {
            let ghost e1 = self.entries@;
            let ghost h1 = self.history@;
            let ghost q1 = self.queue@;
            let ghost mid = out@;
            self.cancel_children(&prereqs, depth, out);
            proof {
                let l0 = out0.len() as int;
                lemma_record_parts(out0, mid, out@);
                assert(out@[l0] == mid[l0]) by {
                    assert(out@.take(mid.len() as int)[l0] == out@[l0]);
                }
                let inner = out@.skip(mid.len() as int);
                lemma_trace_step(
                    es,
                    h0,
                    q0,
                    e1,
                    h1,
                    q1,
                    self.entries@,
                    self.history@,
                    self.queue@,
                    mid.skip(l0),
                    inner,
                );
                lemma_trace_kept(e1, h1, q1, self.entries@, self.history@, self.queue@, inner);
                let g = outcome_numbers(children_outs(inner));
                if queued_cancelable(es, n) {
                    assert(!has_number(e1, n));
                }
                match og {
                    CancelOutcome::Finished(outs) => {
                        assert forall|j: int|
                            0 <= j < outs@.len() && (#[trigger] outs@[j]).status != JobStatus::Done
                                implies no_dependents(self.entries@, outs@[j].number) by {
                            lemma_no_dependents_kept(e1, self.entries@, g, outs@[j].number);
                        }
                    },
                    CancelOutcome::SignalWorker => {},
                }
            }
        }
        Ok(())
    }

    /// Cancels each of `prereqs` in turn (each down to `depth - 1` further levels), recording
    /// each cancelled job in `out`; errors (a job not active, or not cancelable) are skipped.
    fn cancel_children(&mut self, prereqs: &Vec<u64>, depth: usize, out: &mut Vec<(u64, CancelOutcome)>)
        requires
            old(self).wf(),
            depth > 0,
        ensures
            final(self).wf(),
            final(out)@.len() >= old(out)@.len(),
            final(out)@.take(old(out)@.len() as int) == old(out)@,
            final(self).next_number == old(self).next_number,
            final(self).max_parallel == old(self).max_parallel,
            final(self).ffmpeg_limit == old(self).ffmpeg_limit,
            final(self).chroma_limit == old(self).chroma_limit,
            final(self).throttle_until == old(self).throttle_until,
            cancel_trace(
                old(self).entries@,
                old(self).history@,
                old(self).queue@,
                final(self).entries@,
                final(self).history@,
                final(self).queue@,
                final(out)@.skip(old(out)@.len() as int),
            ),
            forall|c: u64| prereqs@.contains(c) ==> !queued_cancelable(final(self).entries@, c),
        decreases depth, 0int,
    {
        let ghost es = self.entries@;
        let ghost h0 = self.history@;
        let ghost q0 = self.queue@;
        let ghost out0 = out@;
        proof {
            assert(out@.skip(out0.len() as int) =~= Seq::<(u64, CancelOutcome)>::empty());
            assert(out@.take(out0.len() as int) =~= out0);
            lemma_trace_empty(es, h0, q0);
        }
        let mut k: usize = 0;
        while k < prereqs.len()
            invariant
                self.wf(),
                depth > 0,
                k <= prereqs@.len(),
                out@.len() >= out0.len(),
                out@.take(out0.len() as int) == out0,
                self.next_number == old(self).next_number,
                self.max_parallel == old(self).max_parallel,
                self.ffmpeg_limit == old(self).ffmpeg_limit,
                self.chroma_limit == old(self).chroma_limit,
                self.throttle_until == old(self).throttle_until,
                es == old(self).entries@,
                h0 == old(self).history@,
                q0 == old(self).queue@,
                out0 == old(out)@,
                cancel_trace(
                    es,
                    h0,
                    q0,
                    self.entries@,
                    self.history@,
                    self.queue@,
                    out@.skip(out0.len() as int),
                ),
                forall|j: int| 0 <= j < k ==> !queued_cancelable(self.entries@, #[trigger] prereqs@[j]),
            decreases prereqs@.len() - k,
        {
            let c = prereqs[k];
            let ghost e1 = self.entries@;
            let ghost h1 = self.history@;
            let ghost q1 = self.queue@;
            let ghost mid = out@;
            let _ = self.cancel_tree(c, depth - 1, out);
            proof {
                let l0 = out0.len() as int;
                lemma_record_parts(out0, mid, out@);
                let inner = out@.skip(mid.len() as int);
                lemma_trace_step(
                    es,
                    h0,
                    q0,
                    e1,
                    h1,
                    q1,
                    self.entries@,
                    self.history@,
                    self.queue@,
                    mid.skip(l0),
                    inner,
                );
                lemma_trace_kept(e1, h1, q1, self.entries@, self.history@, self.queue@, inner);
                assert forall|j: int| 0 <= j < k + 1 implies !queued_cancelable(
                    self.entries@,
                    #[trigger] prereqs@[j],
                ) by {
                    let x = prereqs@[j];
                    if has_number(self.entries@, x) {
                        assert(has_number(e1, x));
                        assert(entry_of(self.entries@, x) == entry_of(e1, x));
                    }
                }
            }
            k = k + 1;
        }
        proof {
            assert forall|c: u64| prereqs@.contains(c) implies !queued_cancelable(self.entries@, c) by {
                let j = choose|j: int| 0 <= j < prereqs@.len() && prereqs@[j] == c;
                assert(!queued_cancelable(self.entries@, prereqs@[j]));
            }
        }
    }

    /// Cancels a job at the user's request: a queued job finishes as canceled (failing the
    /// queued jobs that wait on it), a running job's worker must be told to stop. A job that
    /// cancels its prerequisites then cancels each of them in the same way (and theirs in turn);
    /// those not active or not cancelable are left as they are.
    pub fn cancel(&mut self, n: u64) -> (r: Result<CancelReport, String>)
        requires
            old(self).wf(),
        ensures
            final(self).wf(),
            !has_number(old(self).entries(), n) ==> (r matches Err(e) && e@ == not_found_message(n)),
            has_number(old(self).entries(), n) && !entry_of(old(self).entries(), n).cancelable ==> (
            r matches Err(e) && e@ == "job is not cancelable"@),
            r is Err ==> final(self).entries() == old(self).entries() && final(self).queue() == old(
                self,
            ).queue() && final(self).history() == old(self).history(),
            queued_cancelable(old(self).entries(), n) ==> (r matches Ok(
                CancelReport { outcome: CancelOutcome::Finished(outs), .. },
            ) && {
                &&& outs@.len() >= 1
                &&& outs@[0].number == n
                &&& outs@[0].status == JobStatus::Canceled
                &&& (outs@[0].message matches Some(m) && m@ == "Canceled by user"@)
                &&& cascade_ok(old(self).entries(), outs@)
                &&& forall|j: int|
                    0 <= j < outs@.len() && (#[trigger] outs@[j]).status != JobStatus::Done
                        ==> no_dependents(final(self).entries(), outs@[j].number)
            }),
            has_number(old(self).entries(), n) && entry_of(old(self).entries(), n).cancelable
                && entry_of(old(self).entries(), n).status == JobStatus::Running ==> (r matches Ok(
                rep,
            ) && rep.outcome is SignalWorker && has_number(final(self).entries(), n) && entry_of(
                final(self).entries(),
                n,
            ) == entry_of(old(self).entries(), n)),
            r matches Ok(rep) ==> ({
                let p = cancel_outs(rep.outcome) + children_outs(rep.children@);
                &&& kept_except(old(self).entries(), final(self).entries(), outcome_numbers(p))
                &&& final(self).history() == record_outcomes(old(self).history(), p)
                &&& final(self).queue() == without(old(self).queue(), outcome_numbers(p))
                &&& all_queued_in(old(self).entries(), outcome_numbers(p))
                &&& forall|k: int|
                    0 <= k < rep.children@.len() ==> child_cancelled(
                        final(self).entries(),
                        (#[trigger] rep.children@[k]).0,
                        rep.children@[k].1,
                    )
                &&& !entry_of(old(self).entries(), n).cancels_prerequisites ==> rep.children@.len()
                    == 0
                &&& entry_of(old(self).entries(), n).cancels_prerequisites ==> forall|c: u64|
                    entry_of(old(self).entries(), n).prerequisites@.contains(c)
                        ==> !queued_cancelable(final(self).entries(), c)
            }),
            final(self).next_number() == old(self).next_number(),
            final(self).max_parallel() == old(self).max_parallel(),
            final(self).throttle_until() == old(self).throttle_until(),
            forall|rt: JobResourceType| final(self).type_limit(rt) == old(self).type_limit(rt),
    {
        let ghost es = self.entries@;
        let ghost h0 = self.history@;
        let ghost q0 = self.queue@;
        let depth = self.entries.len();
        let mut out: Vec<(u64, CancelOutcome)> = Vec::new();
        match self.cancel_tree(n, depth, &mut out) {
            Err(e) => {
                return Err(e);
            },
            Ok(()) => {},
        }
        proof {
            assert(out@.skip(0) =~= out@);
            assert(depth > 0) by {
                let i = choose|i: int| 0 <= i < es.len() && (#[trigger] es[i]).number == n;
            }
            lemma_trace_kept(es, h0, q0, self.entries@, self.history@, self.queue@, out@);
        }
        let ghost all = out@;
        let (_, outcome) = out.remove(0);
        proof {
            assert(all =~= seq![all[0]] + out@);
            lemma_children_outs_cons(all[0], out@);
            assert forall|k: int| 0 <= k < out@.len() implies child_cancelled(
                self.entries@,
                (#[trigger] out@[k]).0,
                out@[k].1,
            ) by {
                assert(out@[k] == all[k + 1]);
            }
            if has_number(es, n) && entry_of(es, n).cancelable && entry_of(es, n).status
                == JobStatus::Running {
                assert(!outcome_numbers(children_outs(all)).contains(n));
            }
            assert(self.type_limit(JobResourceType::Ffmpeg) == old(self).type_limit(
                JobResourceType::Ffmpeg,
            ));
        }
        Ok(CancelReport { outcome, children: out })
    }

    /// Cancels one job at the user's request, without its prerequisites.
    fn cancel_single(&mut self, n: u64) -> (r: Result<CancelOutcome, String>)
        requires
            old(self).wf(),
        ensures
            final(self).wf(),
            !has_number(old(self).entries(), n) ==> (r matches Err(e) && e@ == not_found_message(n)),
            has_number(old(self).entries(), n) && !entry_of(old(self).entries(), n).cancelable ==> (
            r matches Err(e) && e@ == "job is not cancelable"@),
            r is Err ==> final(self).entries() == old(self).entries() && final(self).queue() == old(
                self,
            ).queue() && final(self).history() == old(self).history(),
            has_number(old(self).entries(), n) && entry_of(old(self).entries(), n).cancelable
                && entry_of(old(self).entries(), n).status == JobStatus::Running ==> (r matches Ok(
                CancelOutcome::SignalWorker,
            ) && final(self).entries() == old(self).entries() && final(self).queue() == old(
                self,
            ).queue() && final(self).history() == old(self).history()),
            has_number(old(self).entries(), n) && entry_of(old(self).entries(), n).cancelable
                && entry_of(old(self).entries(), n).status == JobStatus::Queued ==> (r matches Ok(
                CancelOutcome::Finished(outs),
            ) && {
                &&& outs@.len() >= 1
                &&& outs@[0].number == n
                &&& outs@[0].status == JobStatus::Canceled
                &&& (outs@[0].message matches Some(m) && m@ == "Canceled by user"@)
                &&& cascade_ok(old(self).entries(), outs@)
                &&& kept_except(old(self).entries(), final(self).entries(), outcome_numbers(outs@))
                &&& forall|j: int|
                    0 <= j < outs@.len() && (#[trigger] outs@[j]).status != JobStatus::Done
                        ==> no_dependents(final(self).entries(), outs@[j].number)
                &&& final(self).history() == record_outcomes(old(self).history(), outs@)
                &&& final(self).queue() == without(old(self).queue(), outcome_numbers(outs@))
            }),
            final(self).next_number() == old(self).next_number(),
            final(self).max_parallel() == old(self).max_parallel(),
            final(self).throttle_until() == old(self).throttle_until(),
            forall|rt: JobResourceType| final(self).type_limit(rt) == old(self).type_limit(rt),
    {
        let i = match self.index_of(n) {
            Some(i) => i,
            None => {
                let mut v = crate::text::chars_of("job not found: job-");
                let d = crate::text::u64_decimal(n);
                crate::text::append_chars(&mut v, &d);
                return Err(crate::text::string_of(&v));
            },
        };
        if !self.entries[i].cancelable {
            return Err(crate::text::string_from("job is not cancelable"));
        }
        if self.entries[i].status == JobStatus::Queued {
            let outs = self.finish(
                n,
                JobStatus::Canceled,
                Some(crate::text::string_from("Canceled by user")),
            );
            Ok(CancelOutcome::Finished(outs))
        } else {
            Ok(CancelOutcome::SignalWorker)
        }
    }

    /// The cancelable active jobs, in order (what "cancel all" cancels).
    pub fn cancelable_jobs(&self) -> (r: Vec<u64>)
        ensures
            r@ == self.entries().filter(|e: JobEntry| e.cancelable).map_values(
                |e: JobEntry| e.number,
            ),
    {
        let ghost es = self.entries@;
        let mut r: Vec<u64> = Vec::new();
        let mut i: usize = 0;
        while i < self.entries.len()
            invariant
                i <= es.len(),
                es == self.entries@,
                r@ == es.take(i as int).filter(|e: JobEntry| e.cancelable).map_values(
                    |e: JobEntry| e.number,
                ),
            decreases es.len() - i,
        {
            proof {
                assert(es.take(i + 1).drop_last() =~= es.take(i as int));
                reveal(Seq::filter);
            }
            if self.entries[i].cancelable {
                r.push(self.entries[i].number);
            }
            i = i + 1;
        }
        assert(es.take(es.len() as int) =~= es);
        r
    }
}

/// An identity belongs to a family: it starts with `prefix` or is exactly `exact`.
pub open spec fn in_family(identity: Seq<char>, prefix: Seq<char>, exact: Seq<char>) -> bool {
    crate::text::starts_with(identity, prefix) || identity == exact
}

/// The queued jobs of a family, in order, leaving out high-priority ones when asked.
pub open spec fn queued_in_family(
    es: Seq<JobEntry>,
    prefix: Seq<char>,
    exact: Seq<char>,
    skip_high: bool,
) -> Seq<u64> {
    es.filter(
        |e: JobEntry|
            e.status == JobStatus::Queued && in_family(e.identity@, prefix, exact) && !(skip_high
                && e.priority == JobPriority::High),
    ).map_values(|e: JobEntry| e.number)
}

/// The queued jobs whose identity is one of `ids`, in order.
pub open spec fn queued_with_identity(es: Seq<JobEntry>, ids: Seq<Seq<char>>) -> Seq<u64> {
    es.filter(|e: JobEntry| e.status == JobStatus::Queued && ids.contains(e.identity@)).map_values(
        |e: JobEntry| e.number,
    )
}

/// How far a job's prerequisites have come, as (steps done, steps in all): two steps per
/// prerequisite, one when it is running and both once it is recorded as done.
pub open spec fn progress_steps(es: Seq<JobEntry>, h: Seq<FinishedJob>, ps: Seq<u64>) -> nat
    decreases ps.len(),
{
    if ps.len() == 0 {
        0
    } else {
        let p = ps.last();
        progress_steps(es, h, ps.drop_last()) + if has_number(es, p) {
            if entry_of(es, p).status == JobStatus::Running {
                1nat
            } else {
                0nat
            }
        } else if done_in(h, p) {
            2nat
        } else {
            0nat
        }
    }
}

proof fn lemma_progress_bounded(es: Seq<JobEntry>, h: Seq<FinishedJob>, ps: Seq<u64>)
    ensures
        progress_steps(es, h, ps) <= 2 * ps.len(),
    decreases ps.len(),
{
    if ps.len() > 0 {
        lemma_progress_bounded(es, h, ps.drop_last());
    }
}

impl JobBoard {
    /// The global parallel limit.
    pub fn current_max_parallel(&self) -> (r: u32)
        ensures
            r == self.max_parallel(),
    {
        self.max_parallel
    }

    /// The limit of a pool; `None` for jobs outside any pool.
    pub fn current_type_limit(&self, rt: JobResourceType) -> (r: Option<u32>)
        ensures
            r == self.type_limit(rt),
    {
        match rt {
            JobResourceType::Unpooled => None,
            JobResourceType::Ffmpeg => Some(self.ffmpeg_limit),
            JobResourceType::Chroma => Some(self.chroma_limit),
        }
    }

    /// Sets the global parallel limit, clamped to `1..=MAX_PARALLEL_CAP`; returns the value kept.
    pub fn set_max_parallel(&mut self, value: u32) -> (r: u32)
        requires
            old(self).wf(),
        ensures
            final(self).wf(),
            r == clamp_limit(value),
            final(self).max_parallel() == r,
            final(self).entries() == old(self).entries(),
            final(self).queue() == old(self).queue(),
            final(self).history() == old(self).history(),
            final(self).next_number() == old(self).next_number(),
            final(self).throttle_until() == old(self).throttle_until(),
            forall|rt: JobResourceType| final(self).type_limit(rt) == old(self).type_limit(rt),
    {
        let v = clamp(value);
        self.max_parallel = v;
        v
    }

    /// Sets the limit of the pool named `resource_type` (`ffmpeg` or `chroma`), clamped to
    /// `1..=MAX_PARALLEL_CAP`; returns the value kept, or an error for any other name.
    pub fn set_type_limit(&mut self, resource_type: &str, value: u32) -> (r: Result<u32, String>)
        requires
            old(self).wf(),
        ensures
            final(self).wf(),
            match crate::jobs::resource_type_of(resource_type@) {
                Some(JobResourceType::Ffmpeg) => r == Ok::<u32, String>(clamp_limit(value))
                    && final(self).type_limit(JobResourceType::Ffmpeg) == Some(clamp_limit(value))
                    && final(self).type_limit(JobResourceType::Chroma) == old(self).type_limit(
                    JobResourceType::Chroma,
                ),
                Some(JobResourceType::Chroma) => r == Ok::<u32, String>(clamp_limit(value))
                    && final(self).type_limit(JobResourceType::Chroma) == Some(clamp_limit(value))
                    && final(self).type_limit(JobResourceType::Ffmpeg) == old(self).type_limit(
                    JobResourceType::Ffmpeg,
                ),
                _ => (r matches Err(e) && e@ == "unknown resource type: "@ + resource_type@) && forall|
                    rt: JobResourceType,
                | final(self).type_limit(rt) == old(self).type_limit(rt),
            },
            final(self).entries() == old(self).entries(),
            final(self).queue() == old(self).queue(),
            final(self).history() == old(self).history(),
            final(self).next_number() == old(self).next_number(),
            final(self).max_parallel() == old(self).max_parallel(),
            final(self).throttle_until() == old(self).throttle_until(),
    {
        match JobResourceType::parse(resource_type) {
            Some(JobResourceType::Ffmpeg) => {
                let v = clamp(value);
                self.ffmpeg_limit = v;
                Ok(v)
            },
            Some(JobResourceType::Chroma) => {
                let v = clamp(value);
                self.chroma_limit = v;
                Ok(v)
            },
            _ => {
                let mut m = crate::text::chars_of("unknown resource type: ");
                crate::text::append_str(&mut m, resource_type);
                Err(crate::text::string_of(&m))
            },
        }
    }

    /// After a library rescan, low-priority starts are limited for a while: until
    /// `now + RESCAN_LOW_PRIORITY_THROTTLE_MS` (saturating), or longer if already set later.
    pub fn activate_rescan_throttle(&mut self, now: u64)
        requires
            old(self).wf(),
        ensures
            final(self).wf(),
            final(self).throttle_until() == ({
                let until = if now as int + RESCAN_LOW_PRIORITY_THROTTLE_MS > u64::MAX {
                    u64::MAX
                } else {
                    (now + RESCAN_LOW_PRIORITY_THROTTLE_MS) as u64
                };
                if old(self).throttle_until() > until {
                    old(self).throttle_until()
                } else {
                    until
                }
            }),
            final(self).entries() == old(self).entries(),
            final(self).queue() == old(self).queue(),
            final(self).history() == old(self).history(),
            final(self).next_number() == old(self).next_number(),
            final(self).max_parallel() == old(self).max_parallel(),
            forall|rt: JobResourceType| final(self).type_limit(rt) == old(self).type_limit(rt),
    {
        let until = now.saturating_add(RESCAN_LOW_PRIORITY_THROTTLE_MS);
        if until > self.throttle_until {
            self.throttle_until = until;
        }
    }

    /// Clears the rescan throttle once its time has passed; returns whether it was cleared.
    pub fn release_elapsed_throttle(&mut self, now: u64) -> (r: bool)
        requires
            old(self).wf(),
        ensures
            final(self).wf(),
            r == (old(self).throttle_until() > 0 && now >= old(self).throttle_until()),
            r ==> final(self).throttle_until() == 0,
            !r ==> final(self).throttle_until() == old(self).throttle_until(),
            final(self).entries() == old(self).entries(),
            final(self).queue() == old(self).queue(),
            final(self).history() == old(self).history(),
            final(self).next_number() == old(self).next_number(),
            final(self).max_parallel() == old(self).max_parallel(),
            forall|rt: JobResourceType| final(self).type_limit(rt) == old(self).type_limit(rt),
    {
        if self.throttle_until > 0 && now >= self.throttle_until {
            self.throttle_until = 0;
            true
        } else {
            false
        }
    }

    /// When to wake the scheduler for the end of the rescan throttle: the time left, when the
    /// throttle is still on and some low-priority job is queued.
    pub fn throttle_wakeup_delay(&self, now: u64) -> (r: Option<u64>)
        requires
            self.wf(),
        ensures
            ({
                let low_queued = exists|k: int|
                    0 <= k < self.queue().len() && entry_of(
                        self.entries(),
                        #[trigger] self.queue()[k],
                    ).priority == JobPriority::Low;
                &&& (self.throttle_until() <= now || !low_queued) ==> r is None
                &&& (self.throttle_until() > now && low_queued) ==> r == Some(
                    (self.throttle_until() - now) as u64,
                )
            }),
    {
        if self.throttle_until <= now {
            return None;
        }
        let mut k: usize = 0;
        while k < self.queue.len()
            invariant
                self.wf(),
                self.throttle_until > now,
                k <= self.queue@.len(),
                forall|m: int|
                    0 <= m < k ==> entry_of(self.entries@, #[trigger] self.queue@[m]).priority
                        != JobPriority::Low,
            decreases self.queue@.len() - k,
        {
            let n = self.queue[k];
            let i = self.index_of(n).unwrap();
            if self.entries[i].priority == JobPriority::Low {
                return Some(self.throttle_until - now);
            }
            k = k + 1;
        }
        None
    }

    /// The first active job of an identity family (the active detect job of a title).
    pub fn active_in_family(&self, prefix: &str, exact: &str) -> (r: Option<u64>)
        requires
            self.wf(),
        ensures
            match r {
                Some(n) => has_number(self.entries(), n) && in_family(
                    entry_of(self.entries(), n).identity@,
                    prefix@,
                    exact@,
                ),
                None => forall|i: int|
                    0 <= i < self.entries().len() ==> !in_family(
                        (#[trigger] self.entries()[i]).identity@,
                        prefix@,
                        exact@,
                    ),
            },
    {
        let p = crate::text::chars_of(prefix);
        let x = crate::text::chars_of(exact);
        let mut i: usize = 0;
        while i < self.entries.len()
            invariant
                self.wf(),
                i <= self.entries@.len(),
                p@ == prefix@,
                x@ == exact@,
                forall|k: int|
                    0 <= k < i ==> !in_family(
                        (#[trigger] self.entries@[k]).identity@,
                        prefix@,
                        exact@,
                    ),
            decreases self.entries@.len() - i,
        {
            let id = crate::text::chars_of(self.entries[i].identity.as_str());
            if crate::text::starts_with_chars(&id, &p) || crate::text::eq_chars(&id, &x) {
                proof {
                    lemma_entry_of(self.entries@, i as int);
                }
                return Some(self.entries[i].number);
            }
            i = i + 1;
        }
        None
    }

    /// The queued jobs of an identity family, in order; high-priority ones are left out when
    /// `skip_high` is set.
    pub fn queued_in_family(&self, prefix: &str, exact: &str, skip_high: bool) -> (r: Vec<u64>)
        ensures
            r@ == queued_in_family(self.entries(), prefix@, exact@, skip_high),
    {
        let ghost es = self.entries@;
        let p = crate::text::chars_of(prefix);
        let x = crate::text::chars_of(exact);
        let mut r: Vec<u64> = Vec::new();
        let mut i: usize = 0;
        while i < self.entries.len()
            invariant
                i <= es.len(),
                es == self.entries@,
                p@ == prefix@,
                x@ == exact@,
                r@ == queued_in_family(es.take(i as int), prefix@, exact@, skip_high),
            decreases es.len() - i,
        {
            proof {
                assert(es.take(i + 1).drop_last() =~= es.take(i as int));
                reveal(Seq::filter);
            }
            let e = &self.entries[i];
            let id = crate::text::chars_of(e.identity.as_str());
            if e.status == JobStatus::Queued && (crate::text::starts_with_chars(&id, &p)
                || crate::text::eq_chars(&id, &x)) && !(skip_high && e.priority
                == JobPriority::High) {
                r.push(e.number);
            }
            i = i + 1;
        }
        assert(es.take(es.len() as int) =~= es);
        r
    }

    /// The queued jobs whose identity is one of `identities`, in order.
    pub fn queued_with_identities(&self, identities: &Vec<String>) -> (r: Vec<u64>)
        ensures
            r@ == queued_with_identity(
                self.entries(),
                identities@.map_values(|s: String| s@),
            ),
    {
        let ghost es = self.entries@;
        let ghost ids = identities@.map_values(|s: String| s@);
        let mut r: Vec<u64> = Vec::new();
        let mut i: usize = 0;
        while i < self.entries.len()
            invariant
                i <= es.len(),
                es == self.entries@,
                ids == identities@.map_values(|s: String| s@),
                r@ == queued_with_identity(es.take(i as int), ids),
            decreases es.len() - i,
        {
            proof {
                assert(es.take(i + 1).drop_last() =~= es.take(i as int));
                reveal(Seq::filter);
            }
            let e = &self.entries[i];
            let mut listed = false;
            if e.status == JobStatus::Queued {
                let id = crate::text::chars_of(e.identity.as_str());
                let mut k: usize = 0;
                while k < identities.len()
                    invariant
                        k <= identities@.len(),
                        ids == identities@.map_values(|s: String| s@),
                        id@ == e.identity@,
                        listed <==> exists|m: int| 0 <= m < k && ids[m] == e.identity@,
                    decreases identities@.len() - k,
                {
                    let c = crate::text::chars_of(identities[k].as_str());
                    proof {
                        assert(ids[k as int] == identities@[k as int]@);
                    }
                    if crate::text::eq_chars(&c, &id) {
                        listed = true;
                    }
                    k = k + 1;
                }
            }
            if listed {
                r.push(e.number);
            }
            i = i + 1;
        }
        assert(es.take(es.len() as int) =~= es);
        r
    }

    /// How far the prerequisites of an active job have come: (steps done, steps in all).
    pub fn prerequisite_progress(&self, n: u64) -> (r: Option<(u32, u32)>)
        requires
            self.wf(),
        ensures
            !has_number(self.entries(), n) ==> r is None,
            has_number(self.entries(), n) ==> ({
                let ps = entry_of(self.entries(), n).prerequisites@;
                r == Some(
                    (
                        progress_steps(self.entries(), self.history(), ps) as u32,
                        (2 * ps.len()) as u32,
                    ),
                )
            }),
    {
        let i = match self.index_of(n) {
            Some(i) => i,
            None => {
                return None;
            },
        };
        let e = &self.entries[i];
        let ghost ps = e.prerequisites@;
        let mut current: u32 = 0;
        let mut k: usize = 0;
        proof {
            assert(self.entries@[i as int].prerequisites@.len() < MAX_PREREQUISITES);
        }
        while k < e.prerequisites.len()
            invariant
                self.wf(),
                i < self.entries@.len(),
                e == self.entries@[i as int],
                ps == e.prerequisites@,
                ps.len() < MAX_PREREQUISITES,
                k <= ps.len(),
                current == progress_steps(self.entries@, self.history@, ps.take(k as int)),
            decreases ps.len() - k,
        {
            proof {
                assert(ps.take(k + 1).drop_last() =~= ps.take(k as int));
                lemma_progress_bounded(self.entries@, self.history@, ps.take(k as int));
            }
            let p = e.prerequisites[k];
            match self.index_of(p) {
                Some(j) => {
                    proof {
                        lemma_entry_of(self.entries@, j as int);
                    }
                    if self.entries[j].status == JobStatus::Running {
                        current = current + 1;
                    }
                },
                None => {
                    if self.done_in_history(p) {
                        current = current + 2;
                    }
                },
            }
            k = k + 1;
        }
        assert(ps.take(ps.len() as int) =~= ps);
        proof {
            lemma_progress_bounded(self.entries@, self.history@, ps);
        }
        let total = 2 * (e.prerequisites.len() as u32);
        Some((current, total))
    }

    /// The prerequisites of an active job that are still active, in order.
    pub fn pending_prerequisites(&self, n: u64) -> (r: Vec<u64>)
        requires
            self.wf(),
        ensures
            !has_number(self.entries(), n) ==> r@.len() == 0,
            has_number(self.entries(), n) ==> r@ == entry_of(
                self.entries(),
                n,
            ).prerequisites@.filter(|p: u64| has_number(self.entries(), p)),
    {
        let i = match self.index_of(n) {
            Some(i) => i,
            None => {
                return Vec::new();
            },
        };
        let e = &self.entries[i];
        let ghost ps = e.prerequisites@;
        let ghost es = self.entries@;
        let mut r: Vec<u64> = Vec::new();
        let mut k: usize = 0;
        while k < e.prerequisites.len()
            invariant
                self.wf(),
                es == self.entries@,
                i < es.len(),
                e == es[i as int],
                ps == e.prerequisites@,
                k <= ps.len(),
                r@ == ps.take(k as int).filter(|p: u64| has_number(es, p)),
            decreases ps.len() - k,
        {
            proof {
                assert(ps.take(k + 1).drop_last() =~= ps.take(k as int));
                reveal(Seq::filter);
            }
            let p = e.prerequisites[k];
            if self.index_of(p).is_some() {
                r.push(p);
            }
            k = k + 1;
        }
        assert(ps.take(ps.len() as int) =~= ps);
        r
    }
}

/// Every operation keeps the board well formed, and on a well-formed board the queue holds
/// exactly the queued jobs, each once; active jobs are queued or running and carry distinct
/// numbers and distinct identities.
pub proof fn lemma_board_shape(b: JobBoard)
    requires
        b.wf(),
    ensures
        b.queue().no_duplicates(),
        forall|x: u64|
            b.queue().contains(x) <==> (has_number(b.entries(), x) && entry_of(b.entries(), x).status
                == JobStatus::Queued),
        forall|i: int|
            0 <= i < b.entries().len() ==> (#[trigger] b.entries()[i]).status == JobStatus::Queued
                || b.entries()[i].status == JobStatus::Running,
        forall|i: int, j: int|
            0 <= i < j < b.entries().len() ==> (#[trigger] b.entries()[i]).number
                != (#[trigger] b.entries()[j]).number && b.entries()[i].identity@
                != b.entries()[j].identity@,
{
    let es = b.entries();
    let q = b.queue();
    assert forall|x: u64| q.contains(x) <==> (has_number(es, x) && entry_of(es, x).status
        == JobStatus::Queued) by {
        if has_number(es, x) && entry_of(es, x).status == JobStatus::Queued {
            let i = position_of(es, x);
            assert(es[i].status == JobStatus::Queued);
        }
        if q.contains(x) {
            let k = choose|k: int| 0 <= k < q.len() && q[k] == x;
            assert(has_number(es, q[k]));
        }
    }
}

fn prerequisite_reason_text(short: u32, status: JobStatus) -> (r: String)
    ensures
        r@ == prerequisite_reason(short, status),
{
    let mut v = crate::text::chars_of("Prerequisite #");
    let d = crate::text::u64_decimal(short as u64);
    crate::text::append_chars(&mut v, &d);
    match status {
        JobStatus::Canceled => crate::text::append_str(&mut v, " was canceled"),
        JobStatus::Failed => crate::text::append_str(&mut v, " failed"),
        _ => crate::text::append_str(&mut v, " did not complete"),
    }
    crate::text::string_of(&v)
}

// ---------------------------------------------------------------------------------------------
// Counting lemmas
// ---------------------------------------------------------------------------------------------

proof fn lemma_counts_after_start(es: Seq<JobEntry>, i: int, rt: JobResourceType)
    requires
        0 <= i < es.len(),
        es[i].status == JobStatus::Queued,
    ensures
        count_running(es.update(i, with_status(es[i], JobStatus::Running))) == count_running(es)
            + 1,
        count_running_in(es.update(i, with_status(es[i], JobStatus::Running)), rt)
            == count_running_in(es, rt) + if es[i].resource_type == rt {
            1nat
        } else {
            0nat
        },
    decreases es.len(),
{
    let u = es.update(i, with_status(es[i], JobStatus::Running));
    if i == es.len() - 1 {
        assert(u.drop_last() =~= es.drop_last());
    } else {
        lemma_counts_after_start(es.drop_last(), i, rt);
        assert(u.drop_last() =~= es.drop_last().update(i, with_status(es[i], JobStatus::Running)));
    }
}

/// A job started because it may start leaves its pool within the pool's limit, and, unless it
/// is high priority, the running jobs within the global limit.
pub proof fn lemma_start_stays_within_limits(before: JobBoard, after: JobBoard, n: u64, now: u64)
    requires
        before.wf(),
        before.may_start(n, now),
        after.entries() == before.entries().update(
            position_of(before.entries(), n),
            with_status(entry_of(before.entries(), n), JobStatus::Running),
        ),
        forall|rt: JobResourceType| after.type_limit(rt) == before.type_limit(rt),
        after.max_parallel() == before.max_parallel(),
    ensures
        ({
            let e = entry_of(before.entries(), n);
            &&& (before.type_limit(e.resource_type) matches Some(cap) ==> count_running_in(
                after.entries(),
                e.resource_type,
            ) <= cap)
            &&& e.priority != JobPriority::High ==> count_running(after.entries())
                <= after.max_parallel()
        }),
{
    let es = before.entries();
    let e = entry_of(es, n);
    let i = position_of(es, n);
    lemma_counts_after_start(es, i, e.resource_type);
}

/// A limit as stored: clamped to `1..=MAX_PARALLEL_CAP`.
pub open spec fn clamp_limit(v: u32) -> u32 {
    if v < 1 {
        1
    } else if v > MAX_PARALLEL_CAP {
        MAX_PARALLEL_CAP
    } else {
        v
    }
}

fn clamp(v: u32) -> (r: u32)
    ensures
        r == clamp_limit(v),
{
    if v < 1 {
        1
    } else if v > MAX_PARALLEL_CAP {
        MAX_PARALLEL_CAP
    } else {
        v
    }
}

} // verus!
