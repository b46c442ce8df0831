//! Opening/ending (OP/ED) detection: segment kinds and statuses, job identities, the plan of
//! detect jobs for a title, step budgets, fingerprint windows and the fingerprint file format.
use vstd::prelude::*;

use crate::text::{
    lemma_int_text,
    append_chars, append_str, chars_of, decimal, eq_str, i64_text, int_text, string_from,
    string_of, u64_decimal,
};

verus! {

/// First-batch episode count for long seasons (preview pass before a full-title pass).
pub const OP_ED_DETECT_BATCH_SIZE: usize = 12;

pub const ANALYSIS_VERSION: i32 = 2;

pub const SEED_BATCH_SIZE: usize = 3;

pub const FULL_PASS_FAIL_STREAK_FOR_NO_OP_ED: usize = 3;

pub const MAX_OP_ED_BLOCKS: u32 = 8;

#[derive(PartialEq, Eq, Structural, Clone, Copy)]
pub enum SegmentKind {
    Op,
    Ed,
}

/// The stored name of a segment kind.
pub open spec fn kind_name(k: SegmentKind) -> Seq<char> {
    match k {
        SegmentKind::Op => "op"@,
        SegmentKind::Ed => "ed"@,
    }
}

/// The displayed name of a segment kind.
pub open spec fn kind_display(k: SegmentKind) -> Seq<char> {
    match k {
        SegmentKind::Op => "OP"@,
        SegmentKind::Ed => "ED"@,
    }
}

/// The segment kind stored under a name.
pub open spec fn kind_of(s: Seq<char>) -> Option<SegmentKind> {
    if s == "op"@ {
        Some(SegmentKind::Op)
    } else if s == "ed"@ {
        Some(SegmentKind::Ed)
    } else {
        None
    }
}

impl SegmentKind {
    pub fn as_str(self) -> (r: &'static str)
        ensures
            r@ == kind_name(self),
    {
        match self {
            SegmentKind::Op => "op",
            SegmentKind::Ed => "ed",
        }
    }

    pub fn display_name(self) -> (r: &'static str)
        ensures
            r@ == kind_display(self),
    {
        match self {
            SegmentKind::Op => "OP",
            SegmentKind::Ed => "ED",
        }
    }

    pub fn parse(s: &str) -> (r: Option<SegmentKind>)
        ensures
            r == kind_of(s@),
    {
        let v = chars_of(s);
        if eq_str(&v, "op") {
            Some(SegmentKind::Op)
        } else if eq_str(&v, "ed") {
            Some(SegmentKind::Ed)
        } else {
            None
        }
    }
}

/// A segment kind reads back as itself from its stored name, and only its stored name reads
/// as it.
pub proof fn lemma_segment_kind_round_trip(k: SegmentKind, s: Seq<char>)
    ensures
        kind_of(kind_name(k)) == Some(k),
        kind_of(s) == Some(k) ==> s == kind_name(k),
{
    reveal_strlit("op");
    reveal_strlit("ed");
    assert("op"@[0] != "ed"@[0]);
}

#[derive(PartialEq, Eq, Structural, Clone, Copy)]
pub enum OpEdSegmentStatus {
    Pending,
    Analyzing,
    Matched,
    NotFound,
    Failed,
    Skipped,
}

/// The stored name of a segment status.
pub open spec fn status_name(s: OpEdSegmentStatus) -> Seq<char> {
    match s {
        OpEdSegmentStatus::Pending => "pending"@,
        OpEdSegmentStatus::Analyzing => "analyzing"@,
        OpEdSegmentStatus::Matched => "matched"@,
        OpEdSegmentStatus::NotFound => "not_found"@,
        OpEdSegmentStatus::Failed => "failed"@,
        OpEdSegmentStatus::Skipped => "skipped"@,
    }
}

/// The status read from a stored name; unknown names read as pending.
pub open spec fn status_of(s: Seq<char>) -> OpEdSegmentStatus {
    if s == "analyzing"@ {
        OpEdSegmentStatus::Analyzing
    } else if s == "matched"@ {
        OpEdSegmentStatus::Matched
    } else if s == "not_found"@ {
        OpEdSegmentStatus::NotFound
    } else if s == "failed"@ {
        OpEdSegmentStatus::Failed
    } else if s == "skipped"@ {
        OpEdSegmentStatus::Skipped
    } else {
        OpEdSegmentStatus::Pending
    }
}

impl OpEdSegmentStatus {
    pub fn as_str(&self) -> (r: &'static str)
        ensures
            r@ == status_name(*self),
    {
        match self {
            OpEdSegmentStatus::Pending => "pending",
            OpEdSegmentStatus::Analyzing => "analyzing",
            OpEdSegmentStatus::Matched => "matched",
            OpEdSegmentStatus::NotFound => "not_found",
            OpEdSegmentStatus::Failed => "failed",
            OpEdSegmentStatus::Skipped => "skipped",
        }
    }

    pub fn from_db(s: &str) -> (r: OpEdSegmentStatus)
        ensures
            r == status_of(s@),
    {
        let v = chars_of(s);
        if eq_str(&v, "analyzing") {
            OpEdSegmentStatus::Analyzing
        } else if eq_str(&v, "matched") {
            OpEdSegmentStatus::Matched
        } else if eq_str(&v, "not_found") {
            OpEdSegmentStatus::NotFound
        } else if eq_str(&v, "failed") {
            OpEdSegmentStatus::Failed
        } else if eq_str(&v, "skipped") {
            OpEdSegmentStatus::Skipped
        } else {
            OpEdSegmentStatus::Pending
        }
    }
}

/// A status reads back as itself from its stored name.
pub proof fn lemma_segment_status_round_trip(s: OpEdSegmentStatus)
    ensures
        status_of(status_name(s)) == s,
{
    reveal_strlit("pending");
    reveal_strlit("analyzing");
    reveal_strlit("matched");
    reveal_strlit("not_found");
    reveal_strlit("failed");
    reveal_strlit("skipped");
    assert("pending"@[0] != "analyzing"@[0]);
    assert("pending"@[0] != "matched"@[0]);
    assert("pending"@[0] != "not_found"@[0]);
    assert("pending"@[0] != "failed"@[0]);
    assert("pending"@[0] != "skipped"@[0]);
    assert("analyzing"@[0] != "matched"@[0]);
    assert("analyzing"@[0] != "not_found"@[0]);
    assert("analyzing"@[0] != "failed"@[0]);
    assert("analyzing"@[0] != "skipped"@[0]);
    assert("matched"@[0] != "not_found"@[0]);
    assert("matched"@[0] != "failed"@[0]);
    assert("matched"@[0] != "skipped"@[0]);
    assert("not_found"@[0] != "failed"@[0]);
    assert("not_found"@[0] != "skipped"@[0]);
    assert("failed"@[0] != "skipped"@[0]);
}

pub struct AnimeOpEdAnalysisSummary {
    pub anime_id: i64,
    pub no_op_ed: bool,
    pub analysis_version: i32,
    pub analyzed_at: Option<String>,
    pub episode_count: i64,
    pub op_matched: i64,
    pub op_pending: i64,
    pub ed_matched: i64,
    pub ed_pending: i64,
    pub templates_count: i64,
}

pub struct PrepareManualOpEdRematchResult {
    pub job_id: Option<String>,
    pub used_manual_templates: bool,
}

/// What must already be on disk before a chroma job can be skipped.
#[derive(PartialEq, Eq, Structural, Clone, Copy)]
pub enum OpEdChromaCacheRequirement {
    /// Full-episode fingerprint only (manual template rematch).
    FullEpisode,
    /// Full episode plus OP/ED discovery windows (auto-detect chroma).
    FullEpisodeAndDiscovery,
}

/// Where a fingerprint is cached.
#[derive(PartialEq, Eq, Structural, Clone, Copy)]
pub enum FingerprintCategory {
    /// Whole-episode fingerprints.
    Full,
    /// Partial windows: discovery bands, automatic templates and other segments.
    Part,
    /// Fingerprints of manual skip templates.
    Custom,
}

impl FingerprintCategory {
    pub fn dir_name(self) -> (r: &'static str)
        ensures
            r@ == (match self {
                FingerprintCategory::Full => "fp-full"@,
                FingerprintCategory::Part => "fp-part"@,
                FingerprintCategory::Custom => "fp-custom"@,
            }),
    {
        match self {
            FingerprintCategory::Full => "fp-full",
            FingerprintCategory::Part => "fp-part",
            FingerprintCategory::Custom => "fp-custom",
        }
    }

    /// Every category, in lookup order.
    pub fn all() -> (r: [FingerprintCategory; 3])
        ensures
            r@ == seq![FingerprintCategory::Full, FingerprintCategory::Part, FingerprintCategory::Custom],
    {
        [FingerprintCategory::Full, FingerprintCategory::Part, FingerprintCategory::Custom]
    }
}

// ---------------------------------------------------------------------------------------------
// Job identities
// ---------------------------------------------------------------------------------------------

/// `op_ed_detect:{anime_id}`.
pub open spec fn detect_identity(anime_id: int) -> Seq<char> {
    "op_ed_detect:"@ + int_text(anime_id)
}

/// `op_ed_detect:{anime_id}:` — the prefix of every batched detect identity of the title.
pub open spec fn detect_identity_prefix(anime_id: int) -> Seq<char> {
    "op_ed_detect:"@ + int_text(anime_id) + ":"@
}

/// `op_ed_detect:{anime_id}:{batch_index}`.
pub open spec fn detect_batch_identity(anime_id: int, batch: nat) -> Seq<char> {
    detect_identity_prefix(anime_id) + decimal(batch)
}

/// `op_ed_chroma:{episode_id}`.
pub open spec fn chroma_identity(episode_id: int) -> Seq<char> {
    "op_ed_chroma:"@ + int_text(episode_id)
}

/// `manual_op_ed_rematch:{anime_id}:`.
pub open spec fn manual_rematch_prefix(anime_id: int) -> Seq<char> {
    "manual_op_ed_rematch:"@ + int_text(anime_id) + ":"@
}

/// The detect jobs of a title are told apart from those of every other title: a batch identity
/// starts with the family prefix of exactly its own title, the single-job identity of a title
/// never starts with a family prefix, and single-job identities of different titles differ.
pub proof fn lemma_detect_identity_family(a: int, b: int, k: nat)
    ensures
        crate::text::starts_with(detect_batch_identity(b, k), detect_identity_prefix(a)) <==> a == b,
        !crate::text::starts_with(detect_identity(b), detect_identity_prefix(a)),
        detect_identity(a) == detect_identity(b) <==> a == b,
{
    reveal_strlit(":");
    let p = "op_ed_detect:"@;
    let ta = int_text(a);
    let tb = int_text(b);
    let pl = p.len() as int;
    let la = ta.len() as int;
    let lb = tb.len() as int;
    lemma_int_text(a, b);
    lemma_int_text(b, a);
    let pre = detect_identity_prefix(a);
    let batch = detect_batch_identity(b, k);
    assert(pre =~= p + ta + seq![':']);
    assert(batch =~= p + tb + seq![':'] + decimal(k));
    if crate::text::starts_with(batch, pre) {
        let sub = batch.subrange(0, pre.len() as int);
        assert(sub == pre);
        if ta.len() < tb.len() {
            assert(pre[pl + la] == ':');
            assert(batch[pl + la] == tb[la]);
            assert(sub[pl + la] == batch[pl + la]);
        } else if ta.len() > tb.len() {
            assert(batch[pl + lb] == ':');
            assert(pre[pl + lb] == ta[lb]);
            assert(sub[pl + lb] == batch[pl + lb]);
        } else {
            assert forall|i: int| 0 <= i < ta.len() implies ta[i] == tb[i] by {
                assert(pre[pl + i] == ta[i]);
                assert(batch[pl + i] == tb[i]);
                assert(sub[pl + i] == batch[pl + i]);
            }
            assert(ta =~= tb);
        }
    }
    if a == b {
        assert(batch.subrange(0, pre.len() as int) =~= pre);
    }
    let single = detect_identity(b);
    assert(single =~= p + tb);
    if crate::text::starts_with(single, pre) {
        let sub = single.subrange(0, pre.len() as int);
        assert(sub == pre);
        assert(ta.len() < tb.len());
        assert(pre[pl + la] == ':');
        assert(single[pl + la] == tb[la]);
        assert(sub[pl + la] == single[pl + la]);
    }
    if detect_identity(a) == detect_identity(b) {
        assert(detect_identity(a).skip(p.len() as int) =~= ta);
        assert(detect_identity(b).skip(p.len() as int) =~= tb);
    }
}

/// The manual rematch jobs of a title are told apart from those of every other title: an
/// episode job starts with the family prefix of exactly its own title, and no summary job starts
/// with a family prefix.
pub proof fn lemma_manual_rematch_family(a: int, b: int, e: int)
    ensures
        crate::text::starts_with(manual_rematch_prefix(b) + int_text(e), manual_rematch_prefix(a))
            <==> a == b,
        !crate::text::starts_with(
            "manual_op_ed_rematch:"@ + int_text(b),
            manual_rematch_prefix(a),
        ),
{
    reveal_strlit(":");
    let p = "manual_op_ed_rematch:"@;
    let ta = int_text(a);
    let tb = int_text(b);
    let pl = p.len() as int;
    let la = ta.len() as int;
    let lb = tb.len() as int;
    lemma_int_text(a, b);
    lemma_int_text(b, a);
    let pre = manual_rematch_prefix(a);
    let ep = manual_rematch_prefix(b) + int_text(e);
    assert(pre =~= p + ta + seq![':']);
    assert(ep =~= p + tb + seq![':'] + int_text(e));
    if crate::text::starts_with(ep, pre) {
        let sub = ep.subrange(0, pre.len() as int);
        assert(sub == pre);
        if ta.len() < tb.len() {
            assert(pre[pl + la] == ':');
            assert(ep[pl + la] == tb[la]);
            assert(sub[pl + la] == ep[pl + la]);
        } else if ta.len() > tb.len() {
            assert(ep[pl + lb] == ':');
            assert(pre[pl + lb] == ta[lb]);
            assert(sub[pl + lb] == ep[pl + lb]);
        } else {
            assert forall|i: int| 0 <= i < ta.len() implies ta[i] == tb[i] by {
                assert(pre[pl + i] == ta[i]);
                assert(ep[pl + i] == tb[i]);
                assert(sub[pl + i] == ep[pl + i]);
            }
            assert(ta =~= tb);
        }
    }
    if a == b {
        assert(ep.subrange(0, pre.len() as int) =~= pre);
    }
    let summary = p + tb;
    if crate::text::starts_with(summary, pre) {
        let sub = summary.subrange(0, pre.len() as int);
        assert(sub == pre);
        assert(ta.len() < tb.len());
        assert(pre[pl + la] == ':');
        assert(summary[pl + la] == tb[la]);
        assert(sub[pl + la] == summary[pl + la]);
    }
}

fn text_with_int(prefix: &str, n: i64) -> (r: Vec<char>)
    ensures
        r@ == prefix@ + int_text(n as int),
{
    let mut v = chars_of(prefix);
    let t = i64_text(n);
    append_chars(&mut v, &t);
    v
}

pub fn op_ed_job_identity(anime_id: i64) -> (r: String)
    ensures
        r@ == detect_identity(anime_id as int),
{
    string_of(&text_with_int("op_ed_detect:", anime_id))
}

/// Batched detect jobs use `op_ed_detect:{anime_id}:{batch_index}`.
pub fn op_ed_detect_batch_job_identity(anime_id: i64, batch_index: usize) -> (r: String)
    ensures
        r@ == detect_batch_identity(anime_id as int, batch_index as nat),
{
    let mut v = text_with_int("op_ed_detect:", anime_id);
    append_str(&mut v, ":");
    let d = u64_decimal(batch_index as u64);
    append_chars(&mut v, &d);
    string_of(&v)
}

pub fn op_ed_detect_job_identity_prefix(anime_id: i64) -> (r: String)
    ensures
        r@ == detect_identity_prefix(anime_id as int),
{
    let mut v = text_with_int("op_ed_detect:", anime_id);
    append_str(&mut v, ":");
    string_of(&v)
}

pub fn op_ed_chroma_job_identity(episode_id: i64) -> (r: String)
    ensures
        r@ == chroma_identity(episode_id as int),
{
    string_of(&text_with_int("op_ed_chroma:", episode_id))
}

pub fn manual_op_ed_rematch_episode_job_identity(anime_id: i64, episode_id: i64) -> (r: String)
    ensures
        r@ == manual_rematch_prefix(anime_id as int) + int_text(episode_id as int),
{
    let mut v = text_with_int("manual_op_ed_rematch:", anime_id);
    append_str(&mut v, ":");
    let e = i64_text(episode_id);
    append_chars(&mut v, &e);
    string_of(&v)
}

pub fn manual_op_ed_rematch_job_identity_prefix(anime_id: i64) -> (r: String)
    ensures
        r@ == manual_rematch_prefix(anime_id as int),
{
    let mut v = text_with_int("manual_op_ed_rematch:", anime_id);
    append_str(&mut v, ":");
    string_of(&v)
}

/// The episode-page progress job of a manual rematch.
pub fn manual_op_ed_rematch_summary_job_identity(anime_id: i64) -> (r: String)
    ensures
        r@ == "manual_op_ed_rematch:"@ + int_text(anime_id as int),
{
    string_of(&text_with_int("manual_op_ed_rematch:", anime_id))
}

/// Same as [`manual_op_ed_rematch_job_identity_prefix`].
pub fn manual_op_ed_rematch_job_identity(anime_id: i64) -> (r: String)
    ensures
        r@ == manual_rematch_prefix(anime_id as int),
{
    manual_op_ed_rematch_job_identity_prefix(anime_id)
}

/// The step label of a manual rematch: `Matching {episode} · {OP|ED}`.
pub fn manual_rematch_step_label(episode_label: &str, kind: SegmentKind) -> (r: String)
    ensures
        r@ == "Matching "@ + episode_label@ + " · "@ + kind_display(kind),
{
    let mut v = chars_of("Matching ");
    append_str(&mut v, episode_label);
    append_str(&mut v, " · ");
    append_str(&mut v, kind.display_name());
    string_of(&v)
}

/// The label recorded for a search pass that bridged a gap.
pub open spec fn bridge_label(pass: Seq<char>) -> Seq<char> {
    if pass == "optimistic"@ {
        "bridge_optimistic"@
    } else if pass == "full"@ {
        "bridge_full"@
    } else if pass == "trim_optimistic"@ {
        "bridge_trim_optimistic"@
    } else if pass == "trim_full"@ {
        "bridge_trim_full"@
    } else if pass == "trim_both_optimistic"@ {
        "bridge_trim_both_optimistic"@
    } else if pass == "trim_both_full"@ {
        "bridge_trim_both_full"@
    } else if pass == "edge_near"@ {
        "bridge_edge_near"@
    } else {
        "bridge"@
    }
}

pub fn bridge_search_pass_label(pass: &str) -> (r: &'static str)
    ensures
        r@ == bridge_label(pass@),
{
    let p = chars_of(pass);
    if eq_str(&p, "optimistic") {
        "bridge_optimistic"
    } else if eq_str(&p, "full") {
        "bridge_full"
    } else if eq_str(&p, "trim_optimistic") {
        "bridge_trim_optimistic"
    } else if eq_str(&p, "trim_full") {
        "bridge_trim_full"
    } else if eq_str(&p, "trim_both_optimistic") {
        "bridge_trim_both_optimistic"
    } else if eq_str(&p, "trim_both_full") {
        "bridge_trim_both_full"
    } else if eq_str(&p, "edge_near") {
        "bridge_edge_near"
    } else {
        "bridge"
    }
}

// ---------------------------------------------------------------------------------------------
// Detect job plans
// ---------------------------------------------------------------------------------------------

#[derive(PartialEq, Eq, Structural, Clone, Copy)]
pub struct OpEdDetectJobOptions {
    /// Reuse templates already stored (batch 2+), falling back to discovery when needed.
    pub continue_templates: bool,
    /// Reset the no-OP/ED flag and ensure pending segment rows for every episode of the title.
    pub init_anime_state: bool,
    /// Record the analysis time when this job finishes.
    pub mark_analyzed: bool,
    /// Re-run matching on episodes already matched instead of skipping them.
    pub rematch_matched: bool,
    /// Demote matched segments to pending before detection so block detection sees every
    /// episode.
    pub demote_matched_for_blocks: bool,
}

pub struct OpEdDetectJobPlan {
    pub episode_ids: Vec<i64>,
    pub options: OpEdDetectJobOptions,
    pub batch_name: String,
}

/// The options of a full-title detect pass.
pub open spec fn single_pass_options(full_pass_only: bool) -> OpEdDetectJobOptions {
    OpEdDetectJobOptions {
        init_anime_state: !full_pass_only,
        continue_templates: false,
        mark_analyzed: true,
        rematch_matched: false,
        demote_matched_for_blocks: false,
    }
}

/// The options of the preview pass over the first batch of a long season.
pub open spec fn preview_options() -> OpEdDetectJobOptions {
    OpEdDetectJobOptions {
        init_anime_state: true,
        continue_templates: false,
        mark_analyzed: false,
        rematch_matched: false,
        demote_matched_for_blocks: false,
    }
}

/// The options of the full pass that follows a preview.
pub open spec fn follow_up_options() -> OpEdDetectJobOptions {
    OpEdDetectJobOptions {
        init_anime_state: false,
        continue_templates: false,
        mark_analyzed: true,
        rematch_matched: false,
        demote_matched_for_blocks: true,
    }
}

fn copy_ids(ids: &[i64], n: usize) -> (r: Vec<i64>)
    requires
        n <= ids.len(),
    ensures
        r@ == ids@.take(n as int),
{
    let mut r: Vec<i64> = Vec::new();
    let mut i: usize = 0;
    while i < n
        invariant
            i <= n <= ids.len(),
            r@ == ids@.take(i as int),
        decreases n - i,
    {
        r.push(ids[i]);
        i = i + 1;
        assert(r@ =~= ids@.take(i as int));
    }
    r
}

/// The detect jobs of a title: none for fewer than two episodes; one full pass for short
/// seasons or re-runs; otherwise a preview over the first batch, then a full pass.
pub fn plan_op_ed_detect_jobs(all_episode_ids: &[i64], full_pass_only: bool) -> (r: Vec<
    OpEdDetectJobPlan,
>)
    ensures
        all_episode_ids@.len() < 2 ==> r@.len() == 0,
        all_episode_ids@.len() >= 2 && (full_pass_only || all_episode_ids@.len()
            <= OP_ED_DETECT_BATCH_SIZE) ==> {
            &&& r@.len() == 1
            &&& r@[0].episode_ids@ == all_episode_ids@
            &&& r@[0].options == single_pass_options(full_pass_only)
            &&& r@[0].batch_name@ == "Detect OP/ED"@
        },
        all_episode_ids@.len() > OP_ED_DETECT_BATCH_SIZE && !full_pass_only ==> {
            &&& r@.len() == 2
            &&& r@[0].episode_ids@ == all_episode_ids@.take(OP_ED_DETECT_BATCH_SIZE as int)
            &&& r@[0].options == preview_options()
            &&& r@[0].batch_name@ == "Detect OP/ED (1/2)"@
            &&& r@[1].episode_ids@ == all_episode_ids@
            &&& r@[1].options == follow_up_options()
            &&& r@[1].batch_name@ == "Detect OP/ED (2/2)"@
        },
{
    let mut plans: Vec<OpEdDetectJobPlan> = Vec::new();
    if all_episode_ids.len() < 2 {
        return plans;
    }
    if full_pass_only || all_episode_ids.len() <= OP_ED_DETECT_BATCH_SIZE {
        let ids = copy_ids(all_episode_ids, all_episode_ids.len());
        assert(all_episode_ids@.take(all_episode_ids@.len() as int) =~= all_episode_ids@);
        plans.push(
            OpEdDetectJobPlan {
                episode_ids: ids,
                options: OpEdDetectJobOptions {
                    init_anime_state: !full_pass_only,
                    continue_templates: false,
                    mark_analyzed: true,
                    rematch_matched: false,
                    demote_matched_for_blocks: false,
                },
                batch_name: string_from("Detect OP/ED"),
            },
        );
        return plans;
    }
    let preview_ids = copy_ids(all_episode_ids, OP_ED_DETECT_BATCH_SIZE);
    plans.push(
        OpEdDetectJobPlan {
            episode_ids: preview_ids,
            options: OpEdDetectJobOptions {
                init_anime_state: true,
                continue_templates: false,
                mark_analyzed: false,
                rematch_matched: false,
                demote_matched_for_blocks: false,
            },
            batch_name: string_from("Detect OP/ED (1/2)"),
        },
    );
    let all_ids = copy_ids(all_episode_ids, all_episode_ids.len());
    assert(all_episode_ids@.take(all_episode_ids@.len() as int) =~= all_episode_ids@);
    plans.push(
        OpEdDetectJobPlan {
            episode_ids: all_ids,
            options: OpEdDetectJobOptions {
                init_anime_state: false,
                continue_templates: false,
                mark_analyzed: true,
                rematch_matched: false,
                demote_matched_for_blocks: true,
            },
            batch_name: string_from("Detect OP/ED (2/2)"),
        },
    );
    plans
}

/// Options of the automatic rematch after manual templates change.
pub fn auto_rematch_job_options() -> (r: OpEdDetectJobOptions)
    ensures
        r == (OpEdDetectJobOptions {
            continue_templates: true,
            init_anime_state: false,
            mark_analyzed: false,
            rematch_matched: true,
            demote_matched_for_blocks: false,
        }),
{
    OpEdDetectJobOptions {
        continue_templates: true,
        init_anime_state: false,
        mark_analyzed: false,
        rematch_matched: true,
        demote_matched_for_blocks: false,
    }
}

// ---------------------------------------------------------------------------------------------
// Step budgets
// ---------------------------------------------------------------------------------------------

/// `u32::saturating_add` / `saturating_mul` on mathematical values.
pub open spec fn sat_u32(x: int) -> u32 {
    if x > u32::MAX {
        u32::MAX
    } else {
        x as u32
    }
}

/// Steps reserved per segment kind: two per seed batch, plus four.
pub open spec fn discovery_steps(episode_count: nat) -> u32 {
    if episode_count < 2 {
        0
    } else {
        let batches = ((episode_count + 2) / 3) as u32;
        sat_u32(sat_u32(batches * 2) + 4)
    }
}

pub fn discovery_steps_per_kind(episode_count: usize) -> (r: u32)
    ensures
        r == discovery_steps(episode_count as nat),
{
    if episode_count < 2 {
        return 0;
    }
    let batches = (episode_count / SEED_BATCH_SIZE + if episode_count % SEED_BATCH_SIZE == 0 {
        0
    } else {
        1
    }) as u32;
    assert(episode_count / 3 + (if episode_count % 3 == 0 { 0int } else { 1int }) == (
    episode_count + 2) / 3);
    let doubled: u64 = batches as u64 * 2;
    let doubled: u32 = if doubled > 4294967295 {
        4294967295
    } else {
        doubled as u32
    };
    let total: u64 = doubled as u64 + 4;
    if total > 4294967295 {
        4294967295
    } else {
        total as u32
    }
}

/// Detection blocks: one per three episodes plus one, at most eight.
pub open spec fn detection_blocks(episode_count: nat) -> u32 {
    if episode_count < 2 {
        1
    } else {
        let by_streak = (episode_count / 3 + 1) as u32;
        if by_streak < MAX_OP_ED_BLOCKS {
            by_streak
        } else {
            MAX_OP_ED_BLOCKS
        }
    }
}

pub fn max_detection_blocks(episode_count: usize) -> (r: u32)
    ensures
        r == detection_blocks(episode_count as nat),
        r <= MAX_OP_ED_BLOCKS,
{
    if episode_count < 2 {
        return 1;
    }
    let by_streak = (episode_count / FULL_PASS_FAIL_STREAK_FOR_NO_OP_ED).saturating_add(1) as u32;
    if by_streak < MAX_OP_ED_BLOCKS {
        by_streak
    } else {
        MAX_OP_ED_BLOCKS
    }
}

/// The total steps of a detect job: start, discovery plus matching for both kinds in every
/// block, done.
pub open spec fn detect_total_steps(episode_count: nat) -> int {
    if episode_count < 2 {
        4
    } else {
        let per_kind = (discovery_steps(episode_count) + (episode_count as u32)) * detection_blocks(
            episode_count,
        );
        1 + per_kind * 2 + 1
    }
}

/// The step budget of a detect job is computed in `u32` without overflow: the steps of one
/// block (the episode count taken as `u32`), times the blocks, twice, plus two.
pub open spec fn detect_steps_fit(episode_count: nat) -> bool {
    episode_count < 2 || {
        let block = discovery_steps(episode_count) + (episode_count as u32);
        &&& block <= u32::MAX
        &&& block * detection_blocks(episode_count) * 2 + 2 <= u32::MAX
    }
}

pub fn op_ed_detect_total_steps(episode_count: usize) -> (r: u32)
    requires
        detect_steps_fit(episode_count as nat),
    ensures
        r == detect_total_steps(episode_count as nat),
{
    if episode_count < 2 {
        return 4;
    }
    let blocks = max_detection_blocks(episode_count);
    let steps = discovery_steps_per_kind(episode_count);
    let per_kind_block = steps + episode_count as u32;
    assert(per_kind_block * blocks <= per_kind_block * blocks * 2) by (nonlinear_arith)
        requires
            per_kind_block >= 0,
            blocks >= 0,
    ;
    let per_kind = per_kind_block * blocks;
    1 + per_kind * 2 + 1
}

// ---------------------------------------------------------------------------------------------
// Fingerprints
// ---------------------------------------------------------------------------------------------

/// Raw signed Chromaprint sub-fingerprints of an audio span.
pub struct Fingerprint {
    pub values: Vec<i32>,
}

impl Fingerprint {
    pub fn frame_count(&self) -> (r: usize)
        ensures
            r == self.values@.len(),
    {
        self.values.len()
    }
}

/// A seed episode whose core window was aligned with the reference episode.
pub struct AlignedSeedEpisode {
    pub episode_id: i64,
    /// Frame on this episode aligned with the reference core start.
    pub core_start_frame: usize,
    pub full: Fingerprint,
}

/// The frame on an aligned episode that corresponds to `probe_start_ref` on the reference;
/// `None` when it would fall before the episode's start.
pub fn aligned_probe_start(ep: &AlignedSeedEpisode, ref_core_start: usize, probe_start_ref: usize)
    -> (r: Option<usize>)
    requires
        ep.core_start_frame <= i64::MAX,
        ref_core_start <= i64::MAX,
        probe_start_ref <= i64::MAX,
        ep.core_start_frame + probe_start_ref - ref_core_start <= i64::MAX,
    ensures
        ({
            let s = ep.core_start_frame + probe_start_ref - ref_core_start;
            &&& s < 0 ==> r is None
            &&& s >= 0 ==> r == Some(s as usize)
        }),
{
    let start = ep.core_start_frame as i64 + (probe_start_ref as i64 - ref_core_start as i64);
    if start < 0 {
        return None;
    }
    Some(start as usize)
}

/// The frames `start..start + window` of a fingerprint; `None` for an empty window or one that
/// runs past the end.
pub fn slice_fingerprint(src: &Fingerprint, start_frame: usize, window_frames: usize) -> (r:
    Option<Fingerprint>)
    ensures
        (window_frames == 0 || start_frame + window_frames > src.values@.len()) ==> r is None,
        (window_frames > 0 && start_frame + window_frames <= src.values@.len()) ==> (r matches Some(
            f,
        ) && f.values@ == src.values@.subrange(
            start_frame as int,
            start_frame + window_frames,
        )),
{
    if window_frames == 0 || (start_frame as u128 + window_frames as u128) > src.values.len() as u128 {
        return None;
    }
    let end = start_frame + window_frames;
    let mut values: Vec<i32> = Vec::new();
    let mut i: usize = start_frame;
    while i < end
        invariant
            start_frame <= i <= end <= src.values.len(),
            values@ == src.values@.subrange(start_frame as int, i as int),
        decreases end - i,
    {
        values.push(src.values[i]);
        i = i + 1;
        assert(values@ =~= src.values@.subrange(start_frame as int, i as int));
    }
    Some(Fingerprint { values })
}

/// The four little-endian bytes of a 32-bit pattern.
pub open spec fn le_bytes(x: nat) -> Seq<u8> {
    seq![(x % 256) as u8, ((x / 256) % 256) as u8, ((x / 65536) % 256) as u8, ((x / 16777216) % 256) as u8]
}

/// The 32-bit pattern of an `i32` (two's complement).
pub open spec fn i32_bits(v: i32) -> nat {
    if v >= 0 {
        v as nat
    } else {
        (v + 0x1_0000_0000) as nat
    }
}

/// The `i32` whose two's complement pattern is `x`.
pub open spec fn i32_of_bits(x: nat) -> int {
    if x < 0x8000_0000 {
        x as int
    } else {
        x - 0x1_0000_0000
    }
}

/// The value of four little-endian bytes.
pub open spec fn le_value(b: Seq<u8>, off: int) -> nat {
    (b[off] as nat) + 256 * (b[off + 1] as nat) + 65536 * (b[off + 2] as nat) + 16777216 * (
    b[off + 3] as nat)
}

/// The bytes of the values, four each, in order.
pub open spec fn values_bytes(values: Seq<i32>) -> Seq<u8>
    decreases values.len(),
{
    if values.len() == 0 {
        Seq::empty()
    } else {
        values_bytes(values.drop_last()) + le_bytes(i32_bits(values.last()))
    }
}

/// The fingerprint file: the frame count as a little-endian `u32`, then each value as four
/// little-endian bytes.
pub open spec fn fingerprint_file(values: Seq<i32>) -> Seq<u8> {
    le_bytes(values.len()) + values_bytes(values)
}

/// What a fingerprint file holds: `None` when it is shorter than its count says.
pub open spec fn fingerprint_from_file(payload: Seq<u8>) -> Option<Seq<i32>> {
    if payload.len() < 4 {
        None
    } else {
        let count = le_value(payload, 0);
        if payload.len() < 4 + 4 * count {
            None
        } else {
            Some(Seq::new(count, |i: int| i32_of_bits(le_value(payload, 4 + 4 * i)) as i32))
        }
    }
}

proof fn lemma_le_round_trip(x: nat)
    requires
        x < 0x1_0000_0000,
    ensures
        le_value(le_bytes(x), 0) == x,
{
    let b = le_bytes(x);
    assert(b[0] == x % 256 && b[1] == (x / 256) % 256 && b[2] == (x / 65536) % 256 && b[3] == (x
        / 16777216) % 256);
    assert((x % 256) + 256 * ((x / 256) % 256) + 65536 * ((x / 65536) % 256) + 16777216 * ((x
        / 16777216) % 256) == x) by (nonlinear_arith)
        requires
            x < 0x1_0000_0000,
    ;
}

proof fn lemma_values_bytes(values: Seq<i32>)
    ensures
        values_bytes(values).len() == 4 * values.len(),
        forall|i: int|
            0 <= i < values.len() ==> i32_of_bits(#[trigger] le_value(values_bytes(values), 4 * i))
                == values[i],
    decreases values.len(),
{
    if values.len() > 0 {
        let prev = values.drop_last();
        lemma_values_bytes(prev);
        let n = values.len() - 1;
        let last = values.last();
        let bits = i32_bits(last);
        lemma_le_round_trip(bits);
        let bs = values_bytes(values);
        let pb = values_bytes(prev);
        let lb = le_bytes(bits);
        assert(bs == pb + lb);
        assert forall|i: int| 0 <= i < values.len() implies i32_of_bits(
            #[trigger] le_value(values_bytes(values), 4 * i),
        ) == values[i] by {
            if i < n {
                assert(le_value(bs, 4 * i) == le_value(pb, 4 * i));
                assert(values[i] == prev[i]);
            } else {
                assert(le_value(bs, 4 * i) == le_value(lb, 0));
            }
        }
    }
}

/// Reading a written fingerprint file gives back the values that were written.
pub proof fn lemma_fingerprint_file_round_trip(values: Seq<i32>)
    requires
        values.len() <= u32::MAX,
    ensures
        fingerprint_from_file(fingerprint_file(values)) == Some(values),
{
    let f = fingerprint_file(values);
    let head = le_bytes(values.len());
    lemma_le_round_trip(values.len());
    lemma_values_bytes(values);
    let vb = values_bytes(values);
    assert(le_value(f, 0) == le_value(head, 0));
    let decoded = Seq::new(
        values.len(),
        |i: int| i32_of_bits(le_value(f, 4 + 4 * i)) as i32,
    );
    assert forall|i: int| 0 <= i < values.len() implies decoded[i] == values[i] by {
        assert(le_value(f, 4 + 4 * i) == le_value(vb, 4 * i));
        let _ = le_value(vb, 4 * i);
    }
    assert(decoded =~= values);
}

fn le_bytes_exec(x: u32) -> (r: [u8; 4])
    ensures
        r@ == le_bytes(x as nat),
{
    [(x % 256) as u8, ((x / 256) % 256) as u8, ((x / 65536) % 256) as u8, ((x / 16777216) % 256) as u8]
}

fn i32_bits_exec(v: i32) -> (r: u32)
    ensures
        r == i32_bits(v),
{
    if v >= 0 {
        v as u32
    } else {
        ((v as i64) + 0x1_0000_0000i64) as u32
    }
}

/// Writes a fingerprint in its file format.
pub fn encode_fingerprint(fp: &Fingerprint) -> (r: Vec<u8>)
    requires
        fp.values@.len() <= u32::MAX,
    ensures
        r@ == fingerprint_file(fp.values@),
{
    let mut out: Vec<u8> = Vec::new();
    let head = le_bytes_exec(fp.values.len() as u32);
    let mut k: usize = 0;
    while k < 4
        invariant
            k <= 4,
            out@ == head@.take(k as int),
        decreases 4 - k,
    {
        out.push(head[k]);
        k = k + 1;
        assert(out@ =~= head@.take(k as int));
    }
    assert(head@.take(4) =~= head@);
    let mut i: usize = 0;
    while i < fp.values.len()
        invariant
            i <= fp.values.len(),
            out@ == head@ + values_bytes(fp.values@.take(i as int)),
        decreases fp.values.len() - i,
    {
        let b = le_bytes_exec(i32_bits_exec(fp.values[i]));
        let ghost before = out@;
        out.push(b[0]);
        out.push(b[1]);
        out.push(b[2]);
        out.push(b[3]);
        assert(fp.values@.take(i + 1).drop_last() =~= fp.values@.take(i as int));
        assert(out@ =~= before + b@);
        i = i + 1;
    }
    assert(fp.values@.take(fp.values.len() as int) =~= fp.values@);
    out
}

fn read_le(b: &[u8], off: usize) -> (r: u32)
    requires
        off + 4 <= b.len(),
    ensures
        r == le_value(b@, off as int),
{
    (b[off] as u32) + 256 * (b[off + 1] as u32) + 65536 * (b[off + 2] as u32) + 16777216 * (b[off
        + 3] as u32)
}

fn i32_of_bits_exec(x: u32) -> (r: i32)
    ensures
        r == i32_of_bits(x as nat),
{
    if x < 0x8000_0000 {
        x as i32
    } else {
        ((x as i64) - 0x1_0000_0000i64) as i32
    }
}

/// Reads a fingerprint file; `None` when it is shorter than its frame count says.
pub fn decode_fingerprint(payload: &[u8]) -> (r: Option<Fingerprint>)
    ensures
        match fingerprint_from_file(payload@) {
            Some(vs) => r matches Some(f) && f.values@ == vs,
            None => r is None,
        },
{
    if payload.len() < 4 {
        return None;
    }
    let count = read_le(payload, 0);
    if (payload.len() as u64) < 4 + 4 * (count as u64) {
        return None;
    }
    let ghost vs = fingerprint_from_file(payload@).unwrap();
    let mut values: Vec<i32> = Vec::new();
    let mut i: usize = 0;
    while i < count as usize
        invariant
            i <= count,
            count == le_value(payload@, 0),
            payload.len() >= 4 + 4 * count,
            vs == fingerprint_from_file(payload@).unwrap(),
            vs.len() == count,
            values@ == vs.take(i as int),
        decreases count - i,
    {
        let v = i32_of_bits_exec(read_le(payload, 4 + 4 * i));
        values.push(v);
        i = i + 1;
        assert(values@ =~= vs.take(i as int));
    }
    assert(vs.take(count as int) =~= vs);
    Some(Fingerprint { values })
}

} // verus!
