//! The queue of long-running library operations: their kinds and statuses as stored.
use vstd::prelude::*;

use crate::text::{chars_of, eq_str};

verus! {

#[derive(PartialEq, Eq, Structural, Clone, Copy)]
pub enum LibraryOperationType {
    DeleteAnime,
    DeleteEpisode,
    CleanLocalData,
    RescanLibrary,
    LocalDataStats,
}

#[derive(PartialEq, Eq, Structural, Clone, Copy)]
pub enum LibraryOperationStatus {
    Queued,
    Running,
    Done,
    Failed,
    Canceled,
}

pub struct LibraryOperationView {
    pub id: i64,
    pub operation_type: LibraryOperationType,
    pub status: LibraryOperationStatus,
    pub phase: String,
    pub target_anime_id: Option<i64>,
    pub target_episode_id: Option<i64>,
    pub progress_current: i64,
    pub progress_total: i64,
    pub summary_json: Option<String>,
    pub error_text: Option<String>,
    pub created_at: String,
    pub started_at: Option<String>,
    pub finished_at: Option<String>,
    pub updated_at: String,
}

pub struct LibraryOpsSnapshot {
    pub active: Vec<LibraryOperationView>,
    pub history: Vec<LibraryOperationView>,
    pub active_count: u32,
}

pub struct LibraryOperationFinishedEvent {
    pub operation_id: i64,
    pub operation_type: LibraryOperationType,
    pub status: LibraryOperationStatus,
    pub target_anime_id: Option<i64>,
    pub target_episode_id: Option<i64>,
    pub summary_json: Option<String>,
    pub error_text: Option<String>,
}

pub struct LibraryUpdatedEvent {
    pub reason: String,
    pub operation_id: Option<i64>,
    pub stats_changed: bool,
}

/// The stored name of an operation type.
pub open spec fn operation_name(t: LibraryOperationType) -> Seq<char> {
    match t {
        LibraryOperationType::DeleteAnime => "delete_anime"@,
        LibraryOperationType::DeleteEpisode => "delete_episode"@,
        LibraryOperationType::CleanLocalData => "clean_local_data"@,
        LibraryOperationType::RescanLibrary => "rescan_library"@,
        LibraryOperationType::LocalDataStats => "local_data_stats"@,
    }
}

/// The operation type stored under a name.
pub open spec fn operation_of(s: Seq<char>) -> Option<LibraryOperationType> {
    if s == "delete_anime"@ {
        Some(LibraryOperationType::DeleteAnime)
    } else if s == "delete_episode"@ {
        Some(LibraryOperationType::DeleteEpisode)
    } else if s == "clean_local_data"@ {
        Some(LibraryOperationType::CleanLocalData)
    } else if s == "rescan_library"@ {
        Some(LibraryOperationType::RescanLibrary)
    } else if s == "local_data_stats"@ {
        Some(LibraryOperationType::LocalDataStats)
    } else {
        None
    }
}

/// The status read from a stored name; unknown names read as failed.
pub open spec fn operation_status_of(s: Seq<char>) -> LibraryOperationStatus {
    if s == "queued"@ {
        LibraryOperationStatus::Queued
    } else if s == "running"@ {
        LibraryOperationStatus::Running
    } else if s == "done"@ {
        LibraryOperationStatus::Done
    } else if s == "failed"@ {
        LibraryOperationStatus::Failed
    } else if s == "canceled"@ {
        LibraryOperationStatus::Canceled
    } else {
        LibraryOperationStatus::Failed
    }
}

impl LibraryOperationType {
    pub fn as_str(self) -> (r: &'static str)
        ensures
            r@ == operation_name(self),
    {
        match self {
            LibraryOperationType::DeleteAnime => "delete_anime",
            LibraryOperationType::DeleteEpisode => "delete_episode",
            LibraryOperationType::CleanLocalData => "clean_local_data",
            LibraryOperationType::RescanLibrary => "rescan_library",
            LibraryOperationType::LocalDataStats => "local_data_stats",
        }
    }

    pub fn parse(value: &str) -> (r: Option<LibraryOperationType>)
        ensures
            r == operation_of(value@),
    {
        let v = chars_of(value);
        if eq_str(&v, "delete_anime") {
            Some(LibraryOperationType::DeleteAnime)
        } else if eq_str(&v, "delete_episode") {
            Some(LibraryOperationType::DeleteEpisode)
        } else if eq_str(&v, "clean_local_data") {
            Some(LibraryOperationType::CleanLocalData)
        } else if eq_str(&v, "rescan_library") {
            Some(LibraryOperationType::RescanLibrary)
        } else if eq_str(&v, "local_data_stats") {
            Some(LibraryOperationType::LocalDataStats)
        } else {
            None
        }
    }
}

impl LibraryOperationStatus {
    pub fn parse(value: &str) -> (r: LibraryOperationStatus)
        ensures
            r == operation_status_of(value@),
    {
        let v = chars_of(value);
        if eq_str(&v, "queued") {
            LibraryOperationStatus::Queued
        } else if eq_str(&v, "running") {
            LibraryOperationStatus::Running
        } else if eq_str(&v, "done") {
            LibraryOperationStatus::Done
        } else if eq_str(&v, "failed") {
            LibraryOperationStatus::Failed
        } else if eq_str(&v, "canceled") {
            LibraryOperationStatus::Canceled
        } else {
            LibraryOperationStatus::Failed
        }
    }
}

/// An operation type reads back as itself from its stored name.
pub proof fn lemma_operation_type_round_trip(t: LibraryOperationType)
    ensures
        operation_of(operation_name(t)) == Some(t),
{
    reveal_strlit("delete_anime");
    reveal_strlit("delete_episode");
    reveal_strlit("clean_local_data");
    reveal_strlit("rescan_library");
    reveal_strlit("local_data_stats");
    assert("delete_anime"@[7] != "delete_episode"@[7]);
    assert("delete_anime"@[0] != "clean_local_data"@[0]);
    assert("delete_anime"@[0] != "rescan_library"@[0]);
    assert("delete_anime"@[0] != "local_data_stats"@[0]);
    assert("delete_episode"@[0] != "clean_local_data"@[0]);
    assert("delete_episode"@[0] != "rescan_library"@[0]);
    assert("delete_episode"@[0] != "local_data_stats"@[0]);
    assert("clean_local_data"@[0] != "rescan_library"@[0]);
    assert("clean_local_data"@[0] != "local_data_stats"@[0]);
    assert("rescan_library"@[0] != "local_data_stats"@[0]);
}

} // verus!
