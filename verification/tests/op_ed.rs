use anime_player::op_ed::{
    aligned_probe_start, auto_rematch_job_options, bridge_search_pass_label, decode_fingerprint,
    discovery_steps_per_kind, encode_fingerprint, manual_op_ed_rematch_episode_job_identity,
    manual_op_ed_rematch_job_identity, manual_op_ed_rematch_job_identity_prefix,
    manual_op_ed_rematch_summary_job_identity, manual_rematch_step_label, max_detection_blocks,
    op_ed_chroma_job_identity, op_ed_detect_batch_job_identity, op_ed_detect_job_identity_prefix,
    op_ed_detect_total_steps, op_ed_job_identity, plan_op_ed_detect_jobs, slice_fingerprint,
    AlignedSeedEpisode, Fingerprint, FingerprintCategory, OpEdSegmentStatus, SegmentKind,
    OP_ED_DETECT_BATCH_SIZE,
};

#[test]
fn plan_detect_jobs_preview_then_full_for_long_seasons() {
    let ids: Vec<i64> = (1..=20).collect();
    let plans = plan_op_ed_detect_jobs(&ids, false);
    assert_eq!(plans.len(), 2);
    assert_eq!(plans[0].episode_ids.len(), OP_ED_DETECT_BATCH_SIZE);
    assert_eq!(plans[1].episode_ids.len(), 20);
    assert!(!plans[0].options.mark_analyzed);
    assert!(!plans[1].options.rematch_matched);
    assert!(plans[1].options.demote_matched_for_blocks);
    assert!(plans[1].options.mark_analyzed);

    let short = plan_op_ed_detect_jobs(&(1..=8).collect::<Vec<_>>(), false);
    assert_eq!(short.len(), 1);
    assert!(short[0].options.mark_analyzed);

    let rerun = plan_op_ed_detect_jobs(&ids, true);
    assert_eq!(rerun.len(), 1);
    assert_eq!(rerun[0].episode_ids.len(), 20);
    assert!(!rerun[0].options.rematch_matched);
    assert!(!rerun[0].options.demote_matched_for_blocks);
    assert!(!rerun[0].options.init_anime_state);
}

#[test]
fn preview_batch_takes_the_first_episodes() {
    let ids: Vec<i64> = (101..=115).collect();
    let plans = plan_op_ed_detect_jobs(&ids, false);
    assert_eq!(plans[0].episode_ids, (101..=112).collect::<Vec<i64>>());
    assert_eq!(plans[1].episode_ids, ids);
    assert_eq!(plans[1].batch_name, "Detect OP/ED (2/2)");
}

#[test]
fn segment_kinds_and_statuses_round_trip() {
    for k in [SegmentKind::Op, SegmentKind::Ed] {
        assert!(SegmentKind::parse(k.as_str()) == Some(k));
    }
    assert_eq!(SegmentKind::Op.display_name(), "OP");
    assert!(SegmentKind::parse("cm").is_none());
    for s in [
        OpEdSegmentStatus::Pending,
        OpEdSegmentStatus::Analyzing,
        OpEdSegmentStatus::Matched,
        OpEdSegmentStatus::NotFound,
        OpEdSegmentStatus::Failed,
        OpEdSegmentStatus::Skipped,
    ] {
        assert!(OpEdSegmentStatus::from_db(s.as_str()) == s);
    }
    assert!(OpEdSegmentStatus::from_db("garbage") == OpEdSegmentStatus::Pending);
    assert_eq!(FingerprintCategory::Custom.dir_name(), "fp-custom");
    assert_eq!(FingerprintCategory::all().len(), 3);
}

#[test]
fn job_identities() {
    assert_eq!(op_ed_job_identity(42), "op_ed_detect:42");
    assert_eq!(op_ed_detect_batch_job_identity(42, 3), "op_ed_detect:42:3");
    assert_eq!(op_ed_detect_job_identity_prefix(-7), "op_ed_detect:-7:");
    assert_eq!(op_ed_chroma_job_identity(9), "op_ed_chroma:9");
    assert_eq!(
        manual_op_ed_rematch_episode_job_identity(5, 17),
        "manual_op_ed_rematch:5:17"
    );
    assert_eq!(manual_op_ed_rematch_job_identity_prefix(5), "manual_op_ed_rematch:5:");
    assert_eq!(manual_op_ed_rematch_job_identity(5), "manual_op_ed_rematch:5:");
    assert_eq!(manual_op_ed_rematch_summary_job_identity(5), "manual_op_ed_rematch:5");
    assert!(op_ed_detect_batch_job_identity(42, 0).starts_with(&op_ed_detect_job_identity_prefix(42)));
    assert!(!op_ed_detect_batch_job_identity(421, 0).starts_with(&op_ed_detect_job_identity_prefix(42)));
}

#[test]
fn labels() {
    assert_eq!(
        manual_rematch_step_label("Episode 3", SegmentKind::Ed),
        "Matching Episode 3 · ED"
    );
    assert_eq!(bridge_search_pass_label("trim_full"), "bridge_trim_full");
    assert_eq!(bridge_search_pass_label("other"), "bridge");
}

#[test]
fn rematch_options() {
    let o = auto_rematch_job_options();
    assert!(o.continue_templates && o.rematch_matched);
    assert!(!o.init_anime_state && !o.mark_analyzed && !o.demote_matched_for_blocks);
}

#[test]
fn step_budgets() {
    assert_eq!(discovery_steps_per_kind(1), 0);
    assert_eq!(discovery_steps_per_kind(12), 12);
    assert_eq!(discovery_steps_per_kind(13), 14);
    assert_eq!(max_detection_blocks(1), 1);
    assert_eq!(max_detection_blocks(12), 5);
    assert_eq!(max_detection_blocks(24), 8);
    assert_eq!(op_ed_detect_total_steps(1), 4);
    assert_eq!(op_ed_detect_total_steps(12), 242);
}

#[test]
fn fingerprint_slices_and_probes() {
    let fp = Fingerprint { values: (0..10).collect() };
    assert_eq!(fp.frame_count(), 10);
    assert_eq!(slice_fingerprint(&fp, 2, 3).unwrap().values, vec![2, 3, 4]);
    assert!(slice_fingerprint(&fp, 8, 3).is_none());
    assert!(slice_fingerprint(&fp, 0, 0).is_none());
    let ep = AlignedSeedEpisode { episode_id: 1, core_start_frame: 10, full: fp };
    assert_eq!(aligned_probe_start(&ep, 20, 25), Some(15));
    assert_eq!(aligned_probe_start(&ep, 20, 5), None);
    assert_eq!(aligned_probe_start(&ep, 20, 10), Some(0));
}

#[test]
fn fingerprint_file_round_trip() {
    let fp = Fingerprint { values: vec![0, 1, -1, i32::MAX, i32::MIN, 123456] };
    let bytes = encode_fingerprint(&fp);
    assert_eq!(bytes.len(), 4 + 4 * 6);
    assert_eq!(&bytes[0..4], &[6, 0, 0, 0]);
    assert_eq!(&bytes[8..12], &[1, 0, 0, 0]);
    assert_eq!(&bytes[12..16], &[0xff, 0xff, 0xff, 0xff]);
    let back = decode_fingerprint(&bytes).expect("decodes");
    assert_eq!(back.values, fp.values);
    assert!(decode_fingerprint(&bytes[..10]).is_none());
    assert!(decode_fingerprint(&[1, 0]).is_none());
}
