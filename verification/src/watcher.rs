//! The pending-path bookkeeping of the library folder watcher: which changed paths wait for
//! their size to settle and which were deleted, before one coalesced rescan is requested.
use vstd::prelude::*;

use crate::scanner::{should_track_path, tracked_path};
use crate::text_set::{
    insert_path, key_set, keys, lemma_key_set_empty, path_key, remove_path, texts, without_key,
};

verus! {

/// What happened to the watched paths of one file-system event.
#[derive(PartialEq, Eq, Structural, Clone, Copy)]
pub enum EventClass {
    /// Removed.
    Remove,
    /// Created or modified.
    Change,
    /// Read or opened: ignored.
    Access,
    /// Any other event: each path is judged by whether it still exists.
    Other,
}

/// Paths waiting to settle and paths deleted since the last rescan, compared as `Path` compares
/// them (by components). A path is never in both.
pub struct PendingPaths {
    settle: Vec<String>,
    deleted: Vec<String>,
}

impl PendingPaths {
    /// Each list holds distinct paths and no path is in both.
    pub closed spec fn wf(&self) -> bool {
        &&& keys(self.settle@).no_duplicates()
        &&& keys(self.deleted@).no_duplicates()
        &&& key_set(self.settle@).disjoint(key_set(self.deleted@))
    }

    /// Paths waiting for their size to settle.
    pub closed spec fn settle_set(&self) -> Set<Seq<Seq<char>>> {
        key_set(self.settle@)
    }

    /// Paths deleted since the last rescan.
    pub closed spec fn deleted_set(&self) -> Set<Seq<Seq<char>>> {
        key_set(self.deleted@)
    }

    /// The paths waiting to settle, as recorded: the first text given for each path, in the
    /// order they came.
    pub closed spec fn settle_paths(&self) -> Seq<Seq<char>> {
        texts(self.settle@)
    }

    /// A path never both waits to settle and counts as deleted.
    pub proof fn lemma_never_both(&self)
        requires
            self.wf(),
        ensures
            self.settle_set().disjoint(self.deleted_set()),
    {
    }

    pub fn new() -> (r: PendingPaths)
        ensures
            r.wf(),
            r.settle_set() == Set::<Seq<Seq<char>>>::empty(),
            r.deleted_set() == Set::<Seq<Seq<char>>>::empty(),
    {
        let r = PendingPaths { settle: Vec::new(), deleted: Vec::new() };
        assert(keys(r.settle@) =~= Seq::<Seq<Seq<char>>>::empty());
        assert(keys(r.deleted@) =~= Seq::<Seq<Seq<char>>>::empty());
        assert(r.settle_set() =~= Set::<Seq<Seq<char>>>::empty());
        assert(r.deleted_set() =~= Set::<Seq<Seq<char>>>::empty());
        r
    }

    pub fn is_empty(&self) -> (r: bool)
        requires
            self.wf(),
        ensures
            r == (self.settle_set().is_empty() && self.deleted_set().is_empty()),
    {
        proof {
            lemma_key_set_empty(self.settle@);
            lemma_key_set_empty(self.deleted@);
        }
        self.settle.len() == 0 && self.deleted.len() == 0
    }

    pub fn clear(&mut self)
        ensures
            final(self).wf(),
            final(self).settle_set() == Set::<Seq<Seq<char>>>::empty(),
            final(self).deleted_set() == Set::<Seq<Seq<char>>>::empty(),
    {
        self.settle = Vec::new();
        self.deleted = Vec::new();
        assert(keys(self.settle@) =~= Seq::<Seq<Seq<char>>>::empty());
        assert(keys(self.deleted@) =~= Seq::<Seq<Seq<char>>>::empty());
        assert(self.settle_set() =~= Set::<Seq<Seq<char>>>::empty());
        assert(self.deleted_set() =~= Set::<Seq<Seq<char>>>::empty());
    }

    /// Hands out the paths waiting to settle and forgets everything pending.
    pub fn take(&mut self) -> (r: Vec<String>)
        requires
            old(self).wf(),
        ensures
            key_set(r@) == old(self).settle_set(),
            keys(r@).no_duplicates(),
            texts(r@) == old(self).settle_paths(),
            final(self).wf(),
            final(self).settle_set() == Set::<Seq<Seq<char>>>::empty(),
            final(self).deleted_set() == Set::<Seq<Seq<char>>>::empty(),
    {
        let mut settle: Vec<String> = Vec::new();
        std::mem::swap(&mut settle, &mut self.settle);
        self.deleted = Vec::new();
        assert(keys(self.settle@) =~= Seq::<Seq<Seq<char>>>::empty());
        assert(keys(self.deleted@) =~= Seq::<Seq<Seq<char>>>::empty());
        assert(self.settle_set() =~= Set::<Seq<Seq<char>>>::empty());
        assert(self.deleted_set() =~= Set::<Seq<Seq<char>>>::empty());
        settle
    }

    /// A path changed: it waits to settle and is no longer counted as deleted.
    pub fn mark_changed(&mut self, path: &str)
        requires
            old(self).wf(),
        ensures
            final(self).wf(),
            final(self).settle_set() == old(self).settle_set().insert(path_key(path@)),
            final(self).deleted_set() == old(self).deleted_set().remove(path_key(path@)),
            final(self).settle_paths() == if old(self).settle_set().contains(path_key(path@)) {
                old(self).settle_paths()
            } else {
                old(self).settle_paths().push(path@)
            },
    {
        let ghost old_settle = self.settle_set();
        let ghost old_deleted = self.deleted_set();
        let deleted = remove_path(&self.deleted, path);
        self.deleted = deleted;
        let settle = insert_path(&self.settle, path);
        self.settle = settle;
        assert(self.settle_set().disjoint(self.deleted_set()));
    }

    /// A path was removed: it is deleted and no longer waits to settle.
    pub fn mark_removed(&mut self, path: &str)
        requires
            old(self).wf(),
        ensures
            final(self).wf(),
            final(self).deleted_set() == old(self).deleted_set().insert(path_key(path@)),
            final(self).settle_set() == old(self).settle_set().remove(path_key(path@)),
            final(self).settle_paths() == without_key(old(self).settle_paths(), path_key(path@)),
    {
        let settle = remove_path(&self.settle, path);
        self.settle = settle;
        let deleted = insert_path(&self.deleted, path);
        self.deleted = deleted;
        assert(self.settle_set().disjoint(self.deleted_set()));
    }

    /// Records one event: among its paths, only those the watcher tracks count; removals are
    /// deleted, changes wait to settle, access is ignored, and other events go by whether each
    /// path still exists.
    #[verifier::spinoff_prover]
    #[verifier::rlimit(40)]
    pub fn apply_event(&mut self, class: EventClass, paths: &[String], exists: &[bool])
        requires
            old(self).wf(),
            paths.len() == exists.len(),
        ensures
            final(self).wf(),
            class == EventClass::Access ==> final(self).settle_set() == old(self).settle_set()
                && final(self).deleted_set() == old(self).deleted_set(),
            forall|i: int|
                0 <= i < paths.len() && class != EventClass::Access && tracked_path(
                    #[trigger] paths@[i]@,
                ) ==> {
                    let removed = class == EventClass::Remove || (class == EventClass::Other
                        && !exists@[i]);
                    let p = path_key(paths@[i]@);
                    (forall|j: int| i < j < paths.len() ==> path_key(paths@[j]@) != p) ==> (
                    if removed {
                        final(self).deleted_set().contains(p)
                            && !final(self).settle_set().contains(p)
                    } else {
                        final(self).settle_set().contains(p)
                            && !final(self).deleted_set().contains(p)
                    })
                },
            forall|p: Seq<Seq<char>>|
                #![trigger final(self).settle_set().contains(p)]
                #![trigger final(self).deleted_set().contains(p)]
                !touched(paths@, p) ==> (final(self).settle_set().contains(
                    p,
                ) == old(self).settle_set().contains(p) && final(self).deleted_set().contains(p)
                    == old(self).deleted_set().contains(p)),
            forall|t: Seq<char>|
                #[trigger] final(self).settle_paths().contains(t) ==> old(
                    self,
                ).settle_paths().contains(t) || exists|k: int|
                    0 <= k < paths.len() && #[trigger] paths@[k]@ == t,
    {
        if class == EventClass::Access {
            assert forall|p: Seq<Seq<char>>| !touched(paths@, p) implies (
            self.settle_set().contains(p) == old(self).settle_set().contains(p)
                && self.deleted_set().contains(p) == old(self).deleted_set().contains(p)) by {}
            return;
        }
        proof {
            assert forall|p: Seq<Seq<char>>| !touched(paths@.take(0), p) by {
                lemma_touched_none(paths@, p);
            }
        }
        let mut i: usize = 0;
        while i < paths.len()
            invariant
                self.wf(),
                paths.len() == exists.len(),
                class != EventClass::Access,
                i <= paths.len(),
                forall|k: int|
                    0 <= k < i && tracked_path(#[trigger] paths@[k]@) ==> {
                        let removed = class == EventClass::Remove || (class == EventClass::Other
                            && !exists@[k]);
                        let p = path_key(paths@[k]@);
                        (forall|j: int| k < j < i ==> path_key(paths@[j]@) != p) ==> (if removed {
                            self.deleted_set().contains(p) && !self.settle_set().contains(p)
                        } else {
                            self.settle_set().contains(p) && !self.deleted_set().contains(p)
                        })
                    },
                forall|p: Seq<Seq<char>>|
                    #![trigger self.settle_set().contains(p)]
                    #![trigger self.deleted_set().contains(p)]
                    !touched(paths@.take(i as int), p) ==> (
                    self.settle_set().contains(p) == old(self).settle_set().contains(p)
                        && self.deleted_set().contains(p) == old(self).deleted_set().contains(p)),
                forall|t: Seq<char>|
                    #[trigger] self.settle_paths().contains(t) ==> old(
                        self,
                    ).settle_paths().contains(t) || exists|k: int|
                        0 <= k < i && #[trigger] paths@[k]@ == t,
            decreases paths.len() - i,
        {
            let ghost s0 = self.settle_set();
            let ghost d0 = self.deleted_set();
            let ghost t0 = self.settle_paths();
            let watched = should_track_path(paths[i].as_str());
            if watched {
                let removed = class == EventClass::Remove || (class == EventClass::Other
                    && !exists[i]);
                if removed {
                    self.mark_removed(paths[i].as_str());
                } else {
                    self.mark_changed(paths[i].as_str());
                }
            }
            proof {
                assert forall|t: Seq<char>| #[trigger] self.settle_paths().contains(t) implies t0.contains(
                    t,
                ) || t == paths@[i as int]@ by {
                    if watched && !t0.contains(t) && t != paths@[i as int]@ {
                        let pred = |x: Seq<char>| path_key(x) != path_key(paths@[i as int]@);
                        if self.settle_paths() == without_key(t0, path_key(paths@[i as int]@)) {
                            t0.lemma_filter_contains_rev(pred, t);
                        }
                    }
                }
                let x = path_key(paths@[i as int]@);
                if watched {
                    assert forall|p: Seq<Seq<char>>| p != x implies self.settle_set().contains(p)
                        == s0.contains(p) && self.deleted_set().contains(p) == d0.contains(p) by {}
                }
                lemma_frame_step(
                    paths@,
                    i as int,
                    watched,
                    s0,
                    d0,
                    self.settle_set(),
                    self.deleted_set(),
                    old(self).settle_set(),
                    old(self).deleted_set(),
                );
            }
            i = i + 1;
        }
        assert(paths@.take(paths.len() as int) =~= paths@);
        proof {
            lemma_touched_all(paths@);
        }
    }
}

/// How long the watched folders must stay quiet before pending changes are handled.
pub const QUIET_DEBOUNCE_MS: u64 = 2_000;

/// How long file sizes must stay unchanged before a rescan.
pub const SETTLE_STABLE_MS: u64 = 1_500;

/// How long the watcher waits at most for sizes to settle.
pub const SETTLE_TIMEOUT_MS: u64 = 60_000;

/// Whether the pending changes are handled now: the last event is at least
/// `QUIET_DEBOUNCE_MS` old, something is pending, and no earlier batch is still settling.
pub fn should_flush(now_ms: u64, last_event_ms: Option<u64>, has_pending: bool, settling: bool) -> (r:
    bool)
    ensures
        r == (match last_event_ms {
            Some(at) => now_ms >= at && now_ms - at >= QUIET_DEBOUNCE_MS,
            None => false,
        } && has_pending && !settling),
{
    let quiet = match last_event_ms {
        Some(at) => now_ms >= at && now_ms - at >= QUIET_DEBOUNCE_MS,
        None => false,
    };
    quiet && has_pending && !settling
}

/// One poll of the sizes of settling files: each size that could be read replaces the last one
/// seen; returns whether any of them changed.
pub fn record_sizes(last: &mut Vec<u64>, now: &[Option<u64>]) -> (r: bool)
    requires
        old(last)@.len() == now@.len(),
    ensures
        final(last)@.len() == old(last)@.len(),
        forall|k: int|
            0 <= k < now@.len() ==> #[trigger] final(last)@[k] == match now@[k] {
                Some(v) => v,
                None => old(last)@[k],
            },
        r == exists|k: int|
            0 <= k < now@.len() && (#[trigger] now@[k] matches Some(v) && v != old(last)@[k]),
{
    let mut changed = false;
    let mut k: usize = 0;
    while k < now.len()
        invariant
            k <= now@.len(),
            last@.len() == old(last)@.len(),
            old(last)@.len() == now@.len(),
            forall|m: int|
                0 <= m < k ==> #[trigger] last@[m] == match now@[m] {
                    Some(v) => v,
                    None => old(last)@[m],
                },
            forall|m: int| k <= m < now@.len() ==> #[trigger] last@[m] == old(last)@[m],
            changed == exists|m: int|
                0 <= m < k && (#[trigger] now@[m] matches Some(v) && v != old(last)@[m]),
        decreases now@.len() - k,
    {
        if let Some(v) = now[k] {
            if v != last[k] {
                changed = true;
            }
            last.set(k, v);
        }
        k = k + 1;
    }
    changed
}

/// Whether waiting for sizes to settle is over: the wait timed out, or sizes have not changed
/// for `SETTLE_STABLE_MS`.
pub fn settle_finished(waited_ms: u64, stable_for_ms: u64, changed: bool) -> (r: bool)
    ensures
        r == (waited_ms >= SETTLE_TIMEOUT_MS || (!changed && stable_for_ms >= SETTLE_STABLE_MS)),
{
    waited_ms >= SETTLE_TIMEOUT_MS || (!changed && stable_for_ms >= SETTLE_STABLE_MS)
}

/// Some tracked path of the event has key `p`.
pub closed spec fn touched(paths: Seq<String>, p: Seq<Seq<char>>) -> bool {
    exists|j: int| 0 <= j < paths.len() && tracked_path(paths[j]@) && #[trigger] path_key(paths[j]@) == p
}

proof fn lemma_frame_step(
    paths: Seq<String>,
    i: int,
    watched: bool,
    s0: Set<Seq<Seq<char>>>,
    d0: Set<Seq<Seq<char>>>,
    s1: Set<Seq<Seq<char>>>,
    d1: Set<Seq<Seq<char>>>,
    so: Set<Seq<Seq<char>>>,
    dold: Set<Seq<Seq<char>>>,
)
    requires
        0 <= i < paths.len(),
        watched == tracked_path(paths[i]@),
        forall|p: Seq<Seq<char>>|
            #![trigger s0.contains(p)]
            #![trigger d0.contains(p)]
            !touched(paths.take(i), p) ==> s0.contains(p) == so.contains(p) && d0.contains(p)
                == dold.contains(p),
        watched ==> forall|p: Seq<Seq<char>>|
            p != path_key(paths[i]@) ==> #[trigger] s1.contains(p) == s0.contains(p) && d1.contains(
                p,
            ) == d0.contains(p),
        !watched ==> s1 == s0 && d1 == d0,
    ensures
        forall|p: Seq<Seq<char>>|
            #![trigger s1.contains(p)]
            #![trigger d1.contains(p)]
            !touched(paths.take(i + 1), p) ==> s1.contains(p) == so.contains(p) && d1.contains(p)
                == dold.contains(p),
{
    let pre = paths.take(i);
    let now = paths.take(i + 1);
    assert forall|p: Seq<Seq<char>>| !touched(now, p) implies s1.contains(p) == so.contains(p)
        && d1.contains(p) == dold.contains(p) by {
        if touched(pre, p) {
            let j = choose|j: int| 0 <= j < pre.len() && tracked_path(pre[j]@) && #[trigger] path_key(
                pre[j]@,
            ) == p;
            assert(now[j] == pre[j]);
            assert(touched(now, p));
        }
        if watched && p == path_key(paths[i]@) {
            assert(now[i] == paths[i]);
            assert(touched(now, p));
        }
    }
}

/// Paths no event mentions.
proof fn lemma_touched_none(paths: Seq<String>, p: Seq<Seq<char>>)
    ensures
        !touched(paths.take(0), p),
{
    assert(paths.take(0).len() == 0);
}

proof fn lemma_touched_all(paths: Seq<String>)
    ensures
        forall|p: Seq<Seq<char>>| touched(paths.take(paths.len() as int), p) == #[trigger] touched(
            paths,
            p,
        ),
{
    assert(paths.take(paths.len() as int) =~= paths);
}

} // verus!
