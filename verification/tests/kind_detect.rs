use anime_player::kind_detect::{
    kind_block_step, kind_detect_start, EpisodeMarking, KindBlockAction, KindBlockEvent,
};

#[test]
fn too_few_episodes_are_skipped() {
    let (_, action) = kind_detect_start(false, 1);
    assert_eq!(
        action,
        KindBlockAction::Stop { mark_no_op_ed: false, marking: EpisodeMarking::SkipAll }
    );
    let (state, action) = kind_detect_start(true, 2);
    assert_eq!(action, KindBlockAction::GatherSeeds);
    assert_eq!(state.block_index, 0);
    assert!(state.reuse_templates);
}

#[test]
fn empty_seed_pool_gives_up_on_first_block_only() {
    let (state, _) = kind_detect_start(false, 5);
    let (_, action) =
        kind_block_step(state, KindBlockEvent::SeedPool { size: 1, saved_block: None }, 5, 2);
    assert_eq!(
        action,
        KindBlockAction::Stop { mark_no_op_ed: true, marking: EpisodeMarking::NotFoundUnmatched }
    );
    let (_, action) =
        kind_block_step(state, KindBlockEvent::SeedPool { size: 1, saved_block: None }, 2, 1);
    assert_eq!(
        action,
        KindBlockAction::Stop { mark_no_op_ed: false, marking: EpisodeMarking::NotFoundUnmatched }
    );
    let mut later = state;
    later.block_index = 1;
    let (_, action) =
        kind_block_step(later, KindBlockEvent::SeedPool { size: 0, saved_block: None }, 5, 2);
    assert_eq!(
        action,
        KindBlockAction::Stop { mark_no_op_ed: false, marking: EpisodeMarking::Nothing }
    );
}

#[test]
fn saved_template_is_reused_once() {
    let (state, _) = kind_detect_start(true, 6);
    let (next, action) =
        kind_block_step(state, KindBlockEvent::SeedPool { size: 0, saved_block: Some(2) }, 6, 3);
    assert_eq!(action, KindBlockAction::StartPass { reused: true, bridge: None });
    assert_eq!(next.block_index, 2);
    assert!(!next.reuse_templates);
    let (next, action) =
        kind_block_step(state, KindBlockEvent::SeedPool { size: 3, saved_block: None }, 6, 3);
    assert_eq!(action, KindBlockAction::Discover);
    assert!(!next.reuse_templates);
}

#[test]
fn weak_template_gives_up_on_the_seed_pool() {
    let (state, _) = kind_detect_start(false, 4);
    let (_, action) = kind_block_step(state, KindBlockEvent::Discovered { hits: Some(1) }, 4, 2);
    assert_eq!(
        action,
        KindBlockAction::Stop { mark_no_op_ed: true, marking: EpisodeMarking::NotFoundSeedPool }
    );
    let (_, action) = kind_block_step(state, KindBlockEvent::Discovered { hits: None }, 4, 2);
    assert_eq!(
        action,
        KindBlockAction::Stop { mark_no_op_ed: true, marking: EpisodeMarking::NotFoundSeedPool }
    );
    let (_, action) = kind_block_step(state, KindBlockEvent::Discovered { hits: Some(2) }, 4, 2);
    assert_eq!(action, KindBlockAction::StartPass { reused: false, bridge: None });
}

#[test]
fn three_misses_end_the_pass_and_bridge_to_the_episode_before() {
    let (state, _) = kind_detect_start(false, 10);
    let (s, a) = kind_block_step(state, KindBlockEvent::Matched { position: 0, matched: true }, 10, 4);
    assert_eq!(a, KindBlockAction::Continue);
    let (s, a) = kind_block_step(s, KindBlockEvent::Matched { position: 1, matched: false }, 10, 4);
    assert_eq!(a, KindBlockAction::Continue);
    let (s, _) = kind_block_step(s, KindBlockEvent::Matched { position: 2, matched: true }, 10, 4);
    assert_eq!(s.fail_streak, 0);
    let (s, _) = kind_block_step(s, KindBlockEvent::Matched { position: 3, matched: false }, 10, 4);
    let (s, _) = kind_block_step(s, KindBlockEvent::Matched { position: 4, matched: false }, 10, 4);
    let (s, a) = kind_block_step(s, KindBlockEvent::Matched { position: 5, matched: false }, 10, 4);
    assert_eq!(a, KindBlockAction::EndPass);
    assert_eq!(s.bridge, Some(2));
    assert!(s.transition);
    let (s, a) = kind_block_step(s, KindBlockEvent::PassOver { still_unmatched: 5 }, 10, 4);
    assert_eq!(a, KindBlockAction::GatherSeeds);
    assert_eq!(s.block_index, 1);
    let (s, a) =
        kind_block_step(s, KindBlockEvent::SeedPool { size: 3, saved_block: None }, 10, 4);
    assert_eq!(a, KindBlockAction::Discover);
    let (s, a) = kind_block_step(s, KindBlockEvent::Discovered { hits: Some(4) }, 10, 4);
    assert_eq!(a, KindBlockAction::StartPass { reused: false, bridge: Some(2) });
    assert_eq!(s.bridge, None);
}

#[test]
fn pass_ends_for_good_without_streak_or_blocks() {
    let (state, _) = kind_detect_start(false, 10);
    let (_, a) = kind_block_step(state, KindBlockEvent::PassOver { still_unmatched: 5 }, 10, 4);
    assert_eq!(a, KindBlockAction::Stop { mark_no_op_ed: false, marking: EpisodeMarking::Nothing });
    let mut ended = state;
    ended.transition = true;
    ended.block_index = 3;
    let (_, a) = kind_block_step(ended, KindBlockEvent::PassOver { still_unmatched: 5 }, 10, 4);
    assert_eq!(a, KindBlockAction::Stop { mark_no_op_ed: false, marking: EpisodeMarking::Nothing });
    ended.block_index = 0;
    let (_, a) = kind_block_step(ended, KindBlockEvent::PassOver { still_unmatched: 1 }, 10, 4);
    assert_eq!(a, KindBlockAction::Stop { mark_no_op_ed: false, marking: EpisodeMarking::Nothing });
    let (s, a) = kind_block_step(ended, KindBlockEvent::Matched { position: 0, matched: false }, 2, 4);
    assert_eq!(a, KindBlockAction::Continue);
    let (s, _) = kind_block_step(s, KindBlockEvent::Matched { position: 1, matched: false }, 2, 4);
    let (_, a) = kind_block_step(s, KindBlockEvent::Matched { position: 2, matched: false }, 2, 4);
    assert_eq!(a, KindBlockAction::Continue);
}
