//! Verified core of a local anime library and player.
use vstd::prelude::*;

pub mod text;
pub mod track_prefs;
pub mod paths;
pub mod jobs;
pub mod job_board;
pub mod library;
pub mod disk_volume;
pub mod op_ed;
pub mod updater;
pub mod scanner;
pub mod text_set;
pub mod watcher;
pub mod urls;
pub mod anilist;
pub mod library_ops;
pub mod crash_log;
pub mod media;
pub mod patterns;
pub mod kind_detect;

verus! {
} // verus!
