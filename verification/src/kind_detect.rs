//! The decisions of OP/ED detection for one segment kind, block by block: when to skip, when
//! to give up and mark the title as having no OP/ED, when to reuse a saved template, how a
//! streak of misses ends a match pass and picks the bridging episode, and when to move on to
//! another block. The caller gathers seeds, builds templates and matches episodes, and reports
//! what came of it as events.
use vstd::prelude::*;

use crate::op_ed::FULL_PASS_FAIL_STREAK_FOR_NO_OP_ED;

verus! {

/// Fewest episodes for which a failed detection marks the title as having no OP/ED.
pub const MIN_EPISODES_FOR_NO_OP_ED: usize = 3;

/// Which episodes get a status when the detection of a kind stops.
#[derive(PartialEq, Eq, Structural, Clone, Copy, Debug)]
pub enum EpisodeMarking {
    /// None.
    Nothing,
    /// Every episode is skipped (too few episodes to compare).
    SkipAll,
    /// Every episode not yet matched for this kind is not found.
    NotFoundUnmatched,
    /// Every episode of the block's seed pool not yet matched for this kind is not found.
    NotFoundSeedPool,
}

/// Where the detection of one kind stands.
#[derive(PartialEq, Eq, Structural, Clone, Copy, Debug)]
pub struct KindBlockState {
    /// The block being detected (a saved template can move it forward).
    pub block_index: i32,
    /// A saved template may still be reused.
    pub reuse_templates: bool,
    /// Position of the episode to match again with the next template.
    pub bridge: Option<usize>,
    /// Misses in a row in the current match pass.
    pub fail_streak: usize,
    /// Position of the first miss of that streak.
    pub streak_start: Option<usize>,
    /// The current pass ended on a streak of misses.
    pub transition: bool,
}

/// What the caller reports.
#[derive(PartialEq, Eq, Structural, Clone, Copy, Debug)]
pub enum KindBlockEvent {
    /// The seed pool of the current block was gathered; `saved_block` is the block of the
    /// latest saved template of this kind, if there is one.
    SeedPool { size: usize, saved_block: Option<i32> },
    /// Discovery over the seed pool ended: `None` when no repeated segment was found, else how
    /// many episodes the built template matched.
    Discovered { hits: Option<usize> },
    /// An episode of the match pass, at `position` among the episodes, was matched or missed
    /// (episodes the pass skips are not reported).
    Matched { position: usize, matched: bool },
    /// The match pass is over; `still_unmatched` episodes have no match for this kind.
    PassOver { still_unmatched: usize },
}

/// What the caller does next.
#[derive(PartialEq, Eq, Structural, Clone, Copy, Debug)]
pub enum KindBlockAction {
    /// Stop detecting this kind, after marking the title as having no OP/ED if asked and
    /// giving the named episodes a status.
    Stop { mark_no_op_ed: bool, marking: EpisodeMarking },
    /// Gather the seed pool of the current block.
    GatherSeeds,
    /// Discover a repeated segment among the seed pool and build its template.
    Discover,
    /// Start a match pass with the saved template (`reused`) or the one just built (saved
    /// first), after matching the bridge episode again, if there is one.
    StartPass { reused: bool, bridge: Option<usize> },
    /// Match the next episode.
    Continue,
    /// End the match pass now and count the episodes still unmatched.
    EndPass,
}

/// A failed block gives up on the whole title only at the first block and with enough
/// episodes.
pub open spec fn gives_up_title(block_index: int, episode_count: nat) -> bool {
    block_index == 0 && episode_count >= MIN_EPISODES_FOR_NO_OP_ED
}

/// The episode before the first miss of a streak, if any.
pub open spec fn bridge_before(streak_start: Option<usize>) -> Option<usize> {
    match streak_start {
        Some(p) => if p > 0 {
            Some((p - 1) as usize)
        } else {
            None
        },
        None => None,
    }
}

/// The state before the first block; saved templates are reused when the job continues from
/// earlier templates.
pub fn kind_detect_start(continue_templates: bool, episode_count: usize) -> (r: (
    KindBlockState,
    KindBlockAction,
))
    ensures
        r.0 == (KindBlockState {
            block_index: 0,
            reuse_templates: continue_templates,
            bridge: None,
            fail_streak: 0,
            streak_start: None,
            transition: false,
        }),
        r.1 == if episode_count < 2 {
            KindBlockAction::Stop { mark_no_op_ed: false, marking: EpisodeMarking::SkipAll }
        } else {
            KindBlockAction::GatherSeeds
        },
{
    let state = KindBlockState {
        block_index: 0,
        reuse_templates: continue_templates,
        bridge: None,
        fail_streak: 0,
        streak_start: None,
        transition: false,
    };
    if episode_count < 2 {
        (state, KindBlockAction::Stop { mark_no_op_ed: false, marking: EpisodeMarking::SkipAll })
    } else {
        (state, KindBlockAction::GatherSeeds)
    }
}

/// The next state and action of the detection of one kind, from an event.
pub fn kind_block_step(
    state: KindBlockState,
    event: KindBlockEvent,
    episode_count: usize,
    max_blocks: u32,
) -> (r: (KindBlockState, KindBlockAction))
    requires
        max_blocks <= i32::MAX,
        event matches KindBlockEvent::Matched { .. } ==> state.fail_streak < usize::MAX,
    ensures
        match event {
            KindBlockEvent::SeedPool { size, saved_block } => {
                let can_reuse = state.reuse_templates && state.block_index == 0
                    && saved_block is Some;
                if size < 2 && !can_reuse {
                    r.0 == state && r.1 == (if state.block_index == 0 {
                        KindBlockAction::Stop {
                            mark_no_op_ed: gives_up_title(0, episode_count as nat),
                            marking: EpisodeMarking::NotFoundUnmatched,
                        }
                    } else {
                        KindBlockAction::Stop {
                            mark_no_op_ed: false,
                            marking: EpisodeMarking::Nothing,
                        }
                    })
                } else if can_reuse {
                    &&& r.0 == KindBlockState {
                        block_index: saved_block->0,
                        reuse_templates: false,
                        bridge: None,
                        fail_streak: 0,
                        streak_start: None,
                        transition: false,
                    }
                    &&& r.1 == KindBlockAction::StartPass { reused: true, bridge: state.bridge }
                } else {
                    &&& r.0 == KindBlockState {
                        reuse_templates: state.reuse_templates && state.block_index != 0,
                        ..state
                    }
                    &&& r.1 == KindBlockAction::Discover
                }
            },
            KindBlockEvent::Discovered { hits } => {
                if hits matches Some(h) && h >= 2 {
                    &&& r.0 == KindBlockState {
                        bridge: None,
                        fail_streak: 0,
                        streak_start: None,
                        transition: false,
                        ..state
                    }
                    &&& r.1 == KindBlockAction::StartPass { reused: false, bridge: state.bridge }
                } else {
                    &&& r.0 == state
                    &&& r.1 == KindBlockAction::Stop {
                        mark_no_op_ed: gives_up_title(state.block_index as int, episode_count as nat),
                        marking: EpisodeMarking::NotFoundSeedPool,
                    }
                }
            },
            KindBlockEvent::Matched { position, matched } => {
                if matched {
                    &&& r.0 == KindBlockState { fail_streak: 0, streak_start: None, ..state }
                    &&& r.1 == KindBlockAction::Continue
                } else {
                    let start = if state.fail_streak == 0 {
                        Some(position)
                    } else {
                        state.streak_start
                    };
                    let streak = state.fail_streak + 1;
                    if streak >= FULL_PASS_FAIL_STREAK_FOR_NO_OP_ED && episode_count
                        >= MIN_EPISODES_FOR_NO_OP_ED {
                        &&& r.0 == KindBlockState {
                            fail_streak: streak as usize,
                            streak_start: start,
                            bridge: if start is Some {
                                bridge_before(start)
                            } else {
                                state.bridge
                            },
                            transition: true,
                            ..state
                        }
                        &&& r.1 == KindBlockAction::EndPass
                    } else {
                        &&& r.0 == KindBlockState {
                            fail_streak: streak as usize,
                            streak_start: start,
                            ..state
                        }
                        &&& r.1 == KindBlockAction::Continue
                    }
                }
            },
            KindBlockEvent::PassOver { still_unmatched } => {
                if state.transition && still_unmatched >= 2 && state.block_index + 1
                    < max_blocks {
                    &&& r.0 == KindBlockState {
                        block_index: (state.block_index + 1) as i32,
                        fail_streak: 0,
                        streak_start: None,
                        transition: false,
                        ..state
                    }
                    &&& r.1 == KindBlockAction::GatherSeeds
                } else {
                    &&& r.0 == state
                    &&& r.1 == KindBlockAction::Stop {
                        mark_no_op_ed: false,
                        marking: EpisodeMarking::Nothing,
                    }
                }
            },
        },
{
    match event {
        KindBlockEvent::SeedPool { size, saved_block } => {
            let can_reuse = state.reuse_templates && state.block_index == 0 && saved_block.is_some();
            if size < 2 && !can_reuse {
                if state.block_index == 0 {
                    let give_up = episode_count >= MIN_EPISODES_FOR_NO_OP_ED;
                    (
                        state,
                        KindBlockAction::Stop {
                            mark_no_op_ed: give_up,
                            marking: EpisodeMarking::NotFoundUnmatched,
                        },
                    )
                } else {
                    (
                        state,
                        KindBlockAction::Stop {
                            mark_no_op_ed: false,
                            marking: EpisodeMarking::Nothing,
                        },
                    )
                }
            } else if can_reuse {
                let block = match saved_block {
                    Some(b) => b,
                    None => 0,
                };
                (
                    KindBlockState {
                        block_index: block,
                        reuse_templates: false,
                        bridge: None,
                        fail_streak: 0,
                        streak_start: None,
                        transition: false,
                    },
                    KindBlockAction::StartPass { reused: true, bridge: state.bridge },
                )
            } else {
                let reuse = state.reuse_templates && state.block_index != 0;
                (KindBlockState { reuse_templates: reuse, ..state }, KindBlockAction::Discover)
            }
        },
        KindBlockEvent::Discovered { hits } => {
            let enough = match hits {
                Some(h) => h >= 2,
                None => false,
            };
            if enough {
                (
                    KindBlockState {
                        bridge: None,
                        fail_streak: 0,
                        streak_start: None,
                        transition: false,
                        ..state
                    },
                    KindBlockAction::StartPass { reused: false, bridge: state.bridge },
                )
            } else {
                let give_up = state.block_index == 0 && episode_count >= MIN_EPISODES_FOR_NO_OP_ED;
                (
                    state,
                    KindBlockAction::Stop {
                        mark_no_op_ed: give_up,
                        marking: EpisodeMarking::NotFoundSeedPool,
                    },
                )
            }
        },
        KindBlockEvent::Matched { position, matched } => {
            if matched {
                (
                    KindBlockState { fail_streak: 0, streak_start: None, ..state },
                    KindBlockAction::Continue,
                )
            } else {
                let start = if state.fail_streak == 0 {
                    Some(position)
                } else {
                    state.streak_start
                };
                let streak = state.fail_streak + 1;
                if streak >= FULL_PASS_FAIL_STREAK_FOR_NO_OP_ED && episode_count
                    >= MIN_EPISODES_FOR_NO_OP_ED {
                    let bridge = match start {
                        Some(p) => if p > 0 {
                            Some(p - 1)
                        } else {
                            None
                        },
                        None => state.bridge,
                    };
                    (
                        KindBlockState {
                            fail_streak: streak,
                            streak_start: start,
                            bridge: bridge,
                            transition: true,
                            ..state
                        },
                        KindBlockAction::EndPass,
                    )
                } else {
                    (
                        KindBlockState { fail_streak: streak, streak_start: start, ..state },
                        KindBlockAction::Continue,
                    )
                }
            }
        },
        KindBlockEvent::PassOver { still_unmatched } => {
            let more_blocks = (state.block_index as i64) + 1 < (max_blocks as i64);
            if state.transition && still_unmatched >= 2 && more_blocks {
                (
                    KindBlockState {
                        block_index: state.block_index + 1,
                        fail_streak: 0,
                        streak_start: None,
                        transition: false,
                        ..state
                    },
                    KindBlockAction::GatherSeeds,
                )
            } else {
                (
                    state,
                    KindBlockAction::Stop {
                        mark_no_op_ed: false,
                        marking: EpisodeMarking::Nothing,
                    },
                )
            }
        },
    }
}

} // verus!
