use vstd::prelude::*;

use crate::keyed::{KeyedVec, KeySet};
use crate::pos::ChunkPos;

verus! {

/// Most new collider cook jobs started per frame.
pub const MAX_COOK_JOBS_PER_TICK: usize = 8;
/// Most cooked colliders spawned per frame.
pub const MAX_COLLIDER_SPAWNS_PER_TICK: usize = 16;

/// Identifier of a spawned collider entity (its bit representation).
pub type EntityId = u64;

/// Request that a chunk's static collider be (re)generated: sent when a
/// chunk is loaded or its blocks change.
#[derive(PartialEq, Eq, Structural, Debug, Clone, Copy)]
pub struct ChunkColliderRebuildRequest {
    pub chunk_pos: ChunkPos,
    /// Level of detail (1 = full detail, higher = more simplified).
    pub lod: usize,
}

impl ChunkColliderRebuildRequest {
    /// A full-detail rebuild request.
    pub fn new(chunk_pos: ChunkPos) -> (r: Self)
        ensures
            r == (ChunkColliderRebuildRequest { chunk_pos, lod: 1 }),
    {
        ChunkColliderRebuildRequest { chunk_pos, lod: 1 }
    }

    /// A rebuild request at the given level of detail.
    pub fn with_lod(chunk_pos: ChunkPos, lod: usize) -> (r: Self)
        ensures
            r == (ChunkColliderRebuildRequest { chunk_pos, lod }),
    {
        ChunkColliderRebuildRequest { chunk_pos, lod }
    }
}

/// Which entity is the static collider of each chunk.
pub struct ChunkColliderEntityRegistry {
    pub entities: KeyedVec<ChunkPos, EntityId>,
}

/// Chunks whose collider is being cooked on a worker thread.
pub struct ColliderCookingInProgress {
    pub chunks: KeySet<ChunkPos>,
}

/// Chunks waiting for a cook job, with the level of detail requested.
pub struct ColliderCookQueue {
    pub pending: KeyedVec<ChunkPos, usize>,
}

/// Version of the latest cook job dispatched for each chunk; results of
/// older jobs are stale.
pub struct ColliderVersionTracker {
    pub versions: KeyedVec<ChunkPos, u64>,
}

/// One rebuild request folded into the pending queue: a chunk keeps the
/// most detailed (lowest) level of detail requested.
pub open spec fn spec_coalesce_one(m: Map<ChunkPos, usize>, r: ChunkColliderRebuildRequest) -> Map<ChunkPos, usize> {
    m.insert(
        r.chunk_pos,
        if m.contains_key(r.chunk_pos) && m[r.chunk_pos] < r.lod { m[r.chunk_pos] } else { r.lod },
    )
}

/// The pending queue after folding in the requests, in order.
pub open spec fn spec_coalesce(m: Map<ChunkPos, usize>, rs: Seq<ChunkColliderRebuildRequest>) -> Map<ChunkPos, usize>
    decreases rs.len(),
{
    if rs.len() == 0 {
        m
    } else {
        spec_coalesce_one(spec_coalesce(m, rs.drop_last()), rs.last())
    }
}

/// Pending entries that may start now: not already cooking, first
/// `MAX_COOK_JOBS_PER_TICK` in queue order.
pub open spec fn spec_cook_candidates(pending: Seq<(ChunkPos, usize)>, cooking: Set<ChunkPos>) -> Seq<(ChunkPos, usize)> {
    let f = pending.filter(|e: (ChunkPos, usize)| !cooking.contains(e.0));
    if f.len() <= MAX_COOK_JOBS_PER_TICK {
        f
    } else {
        f.take(MAX_COOK_JOBS_PER_TICK as int)
    }
}

/// Outcome of handing a cook job to the worker queue.
#[derive(PartialEq, Eq, Structural, Debug, Clone, Copy)]
pub enum SendOutcome {
    Sent,
    Full,
    Disconnected,
}

/// What to do with a finished cook result.
#[derive(PartialEq, Eq, Structural, Debug, Clone, Copy)]
pub enum CookResultAction {
    /// A newer job was dispatched for the chunk; the result is dropped.
    Stale,
    /// The result is current: despawn the chunk's previous collider entity,
    /// if any, and spawn the new collider when the chunk had geometry.
    Apply { despawn: Option<EntityId>, spawn: bool },
}

impl ColliderCookQueue {
    pub open spec fn view(&self) -> Map<ChunkPos, usize> {
        self.pending@
    }

    pub open spec fn wf(&self) -> bool {
        self.pending.wf()
    }

    /// Folds rebuild requests into the queue; several requests for one chunk
    /// leave one entry with the most detailed level of detail.
    pub fn coalesce_requests(&mut self, requests: &Vec<ChunkColliderRebuildRequest>)
        requires
            old(self).wf(),
        ensures
            final(self).wf(),
            final(self)@ == spec_coalesce(old(self)@, requests@),
    {
        let mut k: usize = 0;
        while k < requests.len()
            invariant
                self.wf(),
                k <= requests@.len(),
                self@ == spec_coalesce(old(self)@, requests@.take(k as int)),
            decreases requests@.len() - k,
        {
            let r = requests[k];
            match self.pending.get(&r.chunk_pos) {
                Some(existing) => {
                    let lod = if *existing < r.lod { *existing } else { r.lod };
                    self.pending.insert(r.chunk_pos, lod);
                },
                None => {
                    self.pending.insert(r.chunk_pos, r.lod);
                },
            }
            assert(requests@.take(k + 1).drop_last() =~= requests@.take(k as int));
            k = k + 1;
        }
        assert(requests@.take(requests@.len() as int) =~= requests@);
    }

    /// Pending chunks to start cooking now, in queue order.
    pub fn select_cook_candidates(&self, cooking: &ColliderCookingInProgress) -> (r: Vec<(ChunkPos, usize)>)
        requires
            self.wf(),
            cooking.wf(),
        ensures
            r@ == spec_cook_candidates(self.pending.entries(), cooking@),
    {
        let ghost pred = |e: (ChunkPos, usize)| !cooking@.contains(e.0);
        let ghost s = self.pending.entries();
        let mut out: Vec<(ChunkPos, usize)> = Vec::new();
        let mut i: usize = 0;
        let n = self.pending.len();
        assert(s.take(0).filter(pred) =~= Seq::<(ChunkPos, usize)>::empty()) by {
            s.take(0).lemma_filter_len(pred);
        }
        while i < n && out.len() < MAX_COOK_JOBS_PER_TICK
            invariant
                n == s.len(),
                s == self.pending.entries(),
                i <= n,
                cooking.wf(),
                pred == (|e: (ChunkPos, usize)| !cooking@.contains(e.0)),
                out@ == s.take(i as int).filter(pred),
                out.len() <= MAX_COOK_JOBS_PER_TICK,
            decreases n - i,
        {
            let e = self.pending.entry_at(i);
            proof {
                assert(s.take(i + 1) =~= s.take(i as int).push(*e));
                s.take(i as int).lemma_filter_push(*e, pred);
            }
            if !cooking.chunks.contains(&e.0) {
                out.push(*e);
            }
            i = i + 1;
        }
        proof {
            if out.len() == MAX_COOK_JOBS_PER_TICK {
                let a = s.take(i as int);
                let b = s.skip(i as int);
                assert(s =~= a + b);
                Seq::filter_distributes_over_add(a, b, pred);
                assert(s.filter(pred).take(MAX_COOK_JOBS_PER_TICK as int) =~= a.filter(pred));
            } else {
                assert(s.take(i as int) =~= s);
            }
        }
        out
    }
}

impl ColliderCookingInProgress {
    pub open spec fn view(&self) -> Set<ChunkPos> {
        self.chunks@
    }

    pub open spec fn wf(&self) -> bool {
        self.chunks.wf()
    }
}

/// The latest dispatched version of a chunk in a version map; 0 when none.
pub open spec fn spec_current_version(m: Map<ChunkPos, u64>, pos: ChunkPos) -> u64 {
    if m.contains_key(pos) { m[pos] } else { 0 }
}

impl ColliderVersionTracker {
    pub open spec fn view(&self) -> Map<ChunkPos, u64> {
        self.versions@
    }

    pub open spec fn wf(&self) -> bool {
        self.versions.wf()
    }

    /// The latest dispatched version of a chunk; 0 when none was dispatched.
    pub open spec fn spec_current(&self, pos: ChunkPos) -> u64 {
        spec_current_version(self@, pos)
    }

    /// The latest dispatched version of `pos`, 0 when none was dispatched.
    pub fn current(&self, pos: &ChunkPos) -> (r: u64)
        requires
            self.wf(),
        ensures
            r == self.spec_current(*pos),
    {
        match self.versions.get(pos) {
            Some(v) => *v,
            None => 0,
        }
    }

    /// Bumps the version of `pos` for a new cook job and returns it.
    pub fn next_version(&mut self, pos: ChunkPos) -> (r: u64)
        requires
            old(self).wf(),
            old(self).spec_current(pos) < u64::MAX,
        ensures
            final(self).wf(),
            r == old(self).spec_current(pos) + 1,
            final(self)@ == old(self)@.insert(pos, r),
    {
        let v = self.current(&pos) + 1;
        self.versions.insert(pos, v);
        v
    }
}

impl ChunkColliderEntityRegistry {
    pub open spec fn view(&self) -> Map<ChunkPos, EntityId> {
        self.entities@
    }

    pub open spec fn wf(&self) -> bool {
        self.entities.wf()
    }

    /// Records the collider entity spawned for `pos`.
    pub fn register(&mut self, pos: ChunkPos, entity: EntityId)
        requires
            old(self).wf(),
        ensures
            final(self).wf(),
            final(self)@ == old(self)@.insert(pos, entity),
    {
        self.entities.insert(pos, entity);
    }
}

/// Updates the queue after trying to hand the job of `pos` to the workers;
/// returns whether more jobs may be dispatched this frame. A sent job moves
/// the chunk from pending to cooking; a full or closed queue leaves it
/// pending and stops dispatching.
pub fn record_cook_dispatch(
    queue: &mut ColliderCookQueue,
    cooking: &mut ColliderCookingInProgress,
    pos: ChunkPos,
    outcome: SendOutcome,
) -> (r: bool)
    requires
        old(queue).wf(),
        old(cooking).wf(),
    ensures
        final(queue).wf(),
        final(cooking).wf(),
        r == (outcome == SendOutcome::Sent),
        r ==> final(queue)@ == old(queue)@.remove(pos) && final(cooking)@ == old(cooking)@.insert(pos),
        !r ==> final(queue)@ == old(queue)@ && final(cooking)@ == old(cooking)@,
{
    match outcome {
        SendOutcome::Sent => {
            let _ = queue.pending.remove(&pos);
            let _ = cooking.chunks.insert(pos);
            true
        },
        _ => false,
    }
}

/// The cook bookkeeping: pending queue, chunks cooking, and versions.
pub type CookBook = (Map<ChunkPos, usize>, Set<ChunkPos>, Map<ChunkPos, u64>);

/// One dispatch attempt: the chunk, its level of detail, the version of its
/// job, and what became of the job (`None` when the chunk was not
/// available, so no job was made).
pub type CookAttempt = (ChunkPos, usize, u64, Option<SendOutcome>);

/// The bookkeeping after one attempt: a job that was made moves its chunk
/// to a new version; a job that was sent also moves the chunk from pending
/// to cooking. An attempt without a chunk changes nothing.
pub open spec fn spec_attempt_step(s: CookBook, a: CookAttempt) -> CookBook {
    match a.3 {
        None => s,
        Some(o) => {
            let v = s.2.insert(a.0, (spec_current_version(s.2, a.0) + 1) as u64);
            if o == SendOutcome::Sent {
                (s.0.remove(a.0), s.1.insert(a.0), v)
            } else {
                (s.0, s.1, v)
            }
        },
    }
}

/// The bookkeeping after a sequence of attempts.
pub open spec fn spec_attempts_apply(s: CookBook, log: Seq<CookAttempt>) -> CookBook
    decreases log.len(),
{
    if log.len() == 0 {
        s
    } else {
        spec_attempt_step(spec_attempts_apply(s, log.drop_last()), log.last())
    }
}

/// Whether an attempt lets dispatching go on this frame.
pub open spec fn attempt_continues(a: CookAttempt) -> bool {
    a.3 is None || a.3 == Some(SendOutcome::Sent)
}

/// Starts collider cook jobs for one frame. The requests are folded into
/// the queue; then, in queue order, each pending chunk that is not cooking
/// (at most `MAX_COOK_JOBS_PER_TICK`) gets an attempt: `start_job` is handed
/// the chunk, its level of detail and the chunk's next version, and answers
/// `None` when the chunk is not available (it stays pending, its version
/// unchanged) or how handing the job to the workers went. A sent job moves
/// its chunk from pending to cooking; a full or closed worker queue stops
/// the frame. Returns the attempts made, in order.
#[verifier::rlimit(60)]
pub fn dispatch_cook_jobs<F: Fn(ChunkPos, usize, u64) -> Option<SendOutcome>>(
    queue: &mut ColliderCookQueue,
    cooking: &mut ColliderCookingInProgress,
    versions: &mut ColliderVersionTracker,
    requests: &Vec<ChunkColliderRebuildRequest>,
    start_job: F,
) -> (r: Vec<CookAttempt>)
    requires
        old(queue).wf(),
        old(cooking).wf(),
        old(versions).wf(),
        forall|p: ChunkPos| old(versions).spec_current(p) <= u64::MAX - MAX_COOK_JOBS_PER_TICK,
        forall|p: ChunkPos, lod: usize, v: u64| start_job.requires((p, lod, v)),
    ensures
        final(queue).wf(),
        final(cooking).wf(),
        final(versions).wf(),
        exists|e: Seq<(ChunkPos, usize)>| #![trigger spec_cook_candidates(e, old(cooking)@)] {
            let cands = spec_cook_candidates(e, old(cooking)@);
            &&& crate::keyed::keys_distinct(e)
            &&& crate::keyed::assoc_map(e) == spec_coalesce(old(queue)@, requests@)
            &&& r@.len() <= cands.len()
            &&& forall|j: int| 0 <= j < r@.len() ==> (#[trigger] r@[j].0, r@[j].1) == cands[j]
            &&& r@.len() < cands.len() ==> r@.len() > 0 && !attempt_continues(r@.last())
        },
        r@.len() <= MAX_COOK_JOBS_PER_TICK,
        forall|j: int| 0 <= j < r@.len() ==> !old(cooking)@.contains(#[trigger] r@[j].0),
        forall|j: int| 0 <= j < r@.len() - 1 ==> attempt_continues(#[trigger] r@[j]),
        forall|j: int| 0 <= j < r@.len() ==> #[trigger] r@[j].2 == spec_current_version(
            spec_attempts_apply((spec_coalesce(old(queue)@, requests@), old(cooking)@, old(versions)@), r@.take(j)).2,
            r@[j].0,
        ) + 1,
        forall|j: int| 0 <= j < r@.len() ==> start_job.ensures((r@[j].0, r@[j].1, r@[j].2), #[trigger] r@[j].3),
        (final(queue)@, final(cooking)@, final(versions)@)
            == spec_attempts_apply((spec_coalesce(old(queue)@, requests@), old(cooking)@, old(versions)@), r@),
{
    queue.coalesce_requests(requests);
    let ghost s1: CookBook = (queue@, cooking@, versions@);
    let ghost e = queue.pending.entries();
    let cands = queue.select_cook_candidates(cooking);
    proof {
        let pred = |x: (ChunkPos, usize)| !cooking@.contains(x.0);
        assert forall|j: int| 0 <= j < cands@.len() implies !cooking@.contains(#[trigger] cands@[j].0) by {
            let f = e.filter(pred);
            assert(cands@[j] == f[j]);
            e.lemma_filter_pred(pred, j);
        }
        e.lemma_filter_len(pred);
    }
    assert forall|p: ChunkPos| #[trigger] spec_current_version(s1.2, p) <= u64::MAX - MAX_COOK_JOBS_PER_TICK by {
        assert(old(versions).spec_current(p) <= u64::MAX - MAX_COOK_JOBS_PER_TICK);
    }
    let mut log: Vec<CookAttempt> = Vec::new();
    let mut k: usize = 0;
    let mut go_on = true;
    while k < cands.len() && go_on
        invariant
            queue.wf(),
            cooking.wf(),
            versions.wf(),
            k <= cands@.len(),
            cands@.len() <= MAX_COOK_JOBS_PER_TICK,
            cands@ == spec_cook_candidates(e, s1.1),
            forall|j: int| 0 <= j < cands@.len() ==> !s1.1.contains(#[trigger] cands@[j].0),
            forall|p: ChunkPos, lod: usize, v: u64| start_job.requires((p, lod, v)),
            forall|p: ChunkPos| #[trigger] spec_current_version(s1.2, p) <= u64::MAX - MAX_COOK_JOBS_PER_TICK,
            forall|p: ChunkPos| #[trigger] spec_current_version(versions@, p) <= spec_current_version(s1.2, p) + k,
            log@.len() == k,
            forall|j: int| 0 <= j < k ==> (#[trigger] log@[j].0, log@[j].1) == cands@[j],
            forall|j: int| 0 <= j < k - 1 ==> attempt_continues(#[trigger] log@[j]),
            go_on == (k == 0 || attempt_continues(log@[k - 1])),
            forall|j: int| 0 <= j < k ==> #[trigger] log@[j].2 == spec_current_version(
                spec_attempts_apply(s1, log@.take(j)).2,
                log@[j].0,
            ) + 1,
            forall|j: int| 0 <= j < k ==> start_job.ensures((log@[j].0, log@[j].1, log@[j].2), #[trigger] log@[j].3),
            (queue@, cooking@, versions@) == spec_attempts_apply(s1, log@),
        decreases cands@.len() - k,
    {
        let (pos, lod) = cands[k];
        let current = versions.current(&pos);
        assert(spec_current_version(versions@, pos) <= spec_current_version(s1.2, pos) + k);
        let version = current + 1;
        let outcome = start_job(pos, lod, version);
        let ghost before = log@;
        let ghost book: CookBook = (queue@, cooking@, versions@);
        let ghost v0 = versions@;
        match outcome {
            None => {
                go_on = true;
            },
            Some(o) => {
                let _ = versions.next_version(pos);
                go_on = record_cook_dispatch(queue, cooking, pos, o);
            },
        }
        let ghost attempt: CookAttempt = (pos, lod, version, outcome);
        assert((queue@, cooking@, versions@) == spec_attempt_step(book, attempt));
        assert forall|p: ChunkPos| #[trigger] spec_current_version(versions@, p) <= spec_current_version(s1.2, p) + k + 1 by {
            assert(spec_current_version(v0, p) <= spec_current_version(s1.2, p) + k);
        }
        log.push((pos, lod, version, outcome));
        proof {
            assert(log@.drop_last() =~= before);
            assert(log@.last() == attempt);
            assert forall|j: int| 0 <= j < k + 1 implies #[trigger] log@[j].2 == spec_current_version(
                spec_attempts_apply(s1, log@.take(j)).2,
                log@[j].0,
            ) + 1 by {
                if j < k {
                    assert(log@.take(j) =~= before.take(j));
                } else {
                    assert(log@.take(j) =~= before);
                }
            }
        }
        k = k + 1;
    }
    proof {
        let pred = |x: (ChunkPos, usize)| !s1.1.contains(x.0);
        assert(spec_cook_candidates(e, s1.1) == cands@);
    }
    log
}

proof fn lemma_filter_keys_distinct(s: Seq<(ChunkPos, usize)>, pred: spec_fn((ChunkPos, usize)) -> bool)
    requires
        crate::keyed::keys_distinct(s),
    ensures
        crate::keyed::keys_distinct(s.filter(pred)),
    decreases s.len(),
{
    reveal_with_fuel(Seq::filter, 1);
    if s.len() > 0 {
        let t = s.drop_last();
        assert(crate::keyed::keys_distinct(t)) by {
            assert forall|i: int, j: int| 0 <= i < t.len() && 0 <= j < t.len() && i != j implies t[i].0 != t[j].0 by {
                assert(t[i] == s[i] && t[j] == s[j]);
            }
        }
        lemma_filter_keys_distinct(t, pred);
        let ft = t.filter(pred);
        if pred(s.last()) {
            assert(s.filter(pred) == ft.push(s.last()));
            assert forall|i: int| 0 <= i < ft.len() implies ft[i].0 != s.last().0 by {
                t.lemma_filter_contains_rev(pred, ft[i]);
                assert(ft.contains(ft[i]));
                let k = choose|k: int| 0 <= k < t.len() && t[k] == ft[i];
                assert(s[k] == t[k]);
                assert(s[s.len() - 1] == s.last());
            }
        } else {
            assert(s.filter(pred) == ft);
        }
    }
}

/// Attempts on other chunks leave a chunk's bookkeeping as it was.
proof fn lemma_attempts_untouched(s: CookBook, log: Seq<CookAttempt>, p: ChunkPos)
    requires
        forall|i: int| 0 <= i < log.len() ==> (#[trigger] log[i]).0 != p,
    ensures
        ({
            let f = spec_attempts_apply(s, log);
            &&& f.0.contains_key(p) == s.0.contains_key(p)
            &&& f.0.contains_key(p) ==> f.0[p] == s.0[p]
            &&& f.1.contains(p) == s.1.contains(p)
            &&& spec_current_version(f.2, p) == spec_current_version(s.2, p)
        }),
    decreases log.len(),
{
    if log.len() > 0 {
        let pre = log.drop_last();
        assert forall|i: int| 0 <= i < pre.len() implies (#[trigger] pre[i]).0 != p by {
            assert(pre[i] == log[i]);
        }
        lemma_attempts_untouched(s, pre, p);
        assert(log[log.len() - 1] == log.last());
    }
}

proof fn lemma_attempts_concat(s: CookBook, x: Seq<CookAttempt>, y: Seq<CookAttempt>)
    ensures
        spec_attempts_apply(s, x + y) == spec_attempts_apply(spec_attempts_apply(s, x), y),
    decreases y.len(),
{
    if y.len() == 0 {
        assert(x + y =~= x);
    } else {
        lemma_attempts_concat(s, x, y.drop_last());
        assert((x + y).drop_last() =~= x + y.drop_last());
        assert((x + y).last() == y.last());
    }
}

/// A frame of dispatching makes at most one attempt per chunk, so each
/// attempt sees its chunk's bookkeeping from before the frame: a job is made
/// with the chunk's previous version plus one; a chunk that was not
/// available stays pending with its level of detail and version unchanged;
/// a chunk whose job was sent is no longer pending, is cooking, and has moved
/// to the next version.
pub proof fn lemma_dispatch_per_chunk(e: Seq<(ChunkPos, usize)>, s: CookBook, log: Seq<CookAttempt>, j: int)
    requires
        crate::keyed::keys_distinct(e),
        crate::keyed::assoc_map(e) == s.0,
        log.len() <= spec_cook_candidates(e, s.1).len(),
        forall|i: int| 0 <= i < log.len() ==> (#[trigger] log[i].0, log[i].1) == spec_cook_candidates(e, s.1)[i],
        0 <= j < log.len(),
        spec_current_version(s.2, log[j].0) < u64::MAX,
    ensures
        ({
            let p = log[j].0;
            let f = spec_attempts_apply(s, log);
            &&& spec_current_version(spec_attempts_apply(s, log.take(j)).2, p) == spec_current_version(s.2, p)
            &&& log[j].3 is None ==> f.0.contains_key(p) && f.0[p] == log[j].1 && !f.1.contains(p)
                && spec_current_version(f.2, p) == spec_current_version(s.2, p)
            &&& log[j].3 == Some(SendOutcome::Sent) ==> !f.0.contains_key(p) && f.1.contains(p)
                && spec_current_version(f.2, p) == spec_current_version(s.2, p) + 1
        }),
{
    let pred = |x: (ChunkPos, usize)| !s.1.contains(x.0);
    let cands = spec_cook_candidates(e, s.1);
    let fe = e.filter(pred);
    lemma_filter_keys_distinct(e, pred);
    fe.lemma_filter_len(pred);
    e.lemma_filter_len(pred);
    let p = log[j].0;
    assert forall|i: int| 0 <= i < log.len() && i != j implies (#[trigger] log[i]).0 != p by {
        assert(cands[i] == fe[i] && cands[j] == fe[j]);
    }
    let a = log.take(j);
    let b = log.skip(j + 1);
    assert forall|i: int| 0 <= i < a.len() implies (#[trigger] a[i]).0 != p by {
        assert(a[i] == log[i]);
    }
    assert forall|i: int| 0 <= i < b.len() implies (#[trigger] b[i]).0 != p by {
        assert(b[i] == log[j + 1 + i]);
    }
    lemma_attempts_untouched(s, a, p);
    let mid = spec_attempts_apply(s, a.push(log[j]));
    assert(a.push(log[j]).drop_last() =~= a);
    lemma_attempts_untouched(mid, b, p);
    assert(log =~= a.push(log[j]) + b);
    lemma_attempts_concat(s, a.push(log[j]), b);
    // The chunk was pending with this level of detail, and not cooking.
    assert(cands[j] == fe[j]);
    e.lemma_filter_pred(pred, j);
    assert(fe.contains(fe[j]));
    e.lemma_filter_contains_rev(pred, fe[j]);
    let k = choose|k: int| 0 <= k < e.len() && e[k] == fe[j];
    crate::keyed::lemma_assoc_map_index(e, k);
}

/// Decides what a finished cook result for `pos` (from the job of version
/// `result_version`, with a collider when `has_collider`) does: a stale
/// result only ends the cooking; a current one also takes the chunk's old
/// collider entity out of the registry.
pub fn apply_cook_result(
    cooking: &mut ColliderCookingInProgress,
    versions: &ColliderVersionTracker,
    registry: &mut ChunkColliderEntityRegistry,
    pos: ChunkPos,
    result_version: u64,
    has_collider: bool,
) -> (r: CookResultAction)
    requires
        old(cooking).wf(),
        versions.wf(),
        old(registry).wf(),
    ensures
        final(cooking).wf(),
        final(registry).wf(),
        final(cooking)@ == old(cooking)@.remove(pos),
        result_version < versions.spec_current(pos) ==> r == CookResultAction::Stale,
        result_version != versions.spec_current(pos) ==> r == CookResultAction::Stale
            && final(registry)@ == old(registry)@,
        result_version == versions.spec_current(pos) ==> r == (CookResultAction::Apply {
            despawn: if old(registry)@.contains_key(pos) { Some(old(registry)@[pos]) } else { None },
            spawn: has_collider,
        }) && final(registry)@ == old(registry)@.remove(pos),
{
    let current = versions.current(&pos);
    if result_version != current {
        let _ = cooking.chunks.remove(&pos);
        return CookResultAction::Stale;
    }
    let despawn = registry.entities.remove(&pos);
    let _ = cooking.chunks.remove(&pos);
    CookResultAction::Apply { despawn, spawn: has_collider }
}

/// The version map after a chunk is forgotten: a chunk that ever had a job
/// dispatched moves to a new version, so that results of jobs dispatched
/// before are stale; versions never go back.
pub open spec fn spec_forget_version(m: Map<ChunkPos, u64>, pos: ChunkPos) -> Map<ChunkPos, u64> {
    if m.contains_key(pos) {
        m.insert(pos, (m[pos] + 1) as u64)
    } else {
        m
    }
}

/// A finished cook job: its chunk, the version it was dispatched with, and
/// the collider it produced (none for a chunk without solid geometry).
pub struct CookResult<T> {
    pub chunk_pos: ChunkPos,
    pub version: u64,
    pub collider: Option<T>,
}

/// What became of one cook result: its chunk, its version, the action
/// decided, and the collider entity spawned for it.
pub type AppliedCook = (ChunkPos, u64, CookResultAction, Option<EntityId>);

/// The chunks cooking and the collider registry after one applied result:
/// the chunk is no longer cooking, and a current result replaces the
/// chunk's registry entry with the spawned entity, or removes it when no
/// collider was spawned.
pub open spec fn spec_applied_step(s: (Set<ChunkPos>, Map<ChunkPos, EntityId>), o: AppliedCook) -> (Set<ChunkPos>, Map<ChunkPos, EntityId>) {
    let registry = match o.2 {
        CookResultAction::Stale => s.1,
        CookResultAction::Apply { .. } => match o.3 {
            Some(id) => s.1.insert(o.0, id),
            None => s.1.remove(o.0),
        },
    };
    (s.0.remove(o.0), registry)
}

/// The chunks cooking and the registry after a sequence of applied results.
pub open spec fn spec_applied_run(s: (Set<ChunkPos>, Map<ChunkPos, EntityId>), log: Seq<AppliedCook>) -> (Set<ChunkPos>, Map<ChunkPos, EntityId>)
    decreases log.len(),
{
    if log.len() == 0 {
        s
    } else {
        spec_applied_step(spec_applied_run(s, log.drop_last()), log.last())
    }
}

/// Number of current (applied, not stale) results in a log.
pub open spec fn spec_applied_count(log: Seq<AppliedCook>) -> nat
    decreases log.len(),
{
    if log.len() == 0 {
        0
    } else {
        spec_applied_count(log.drop_last()) + if log.last().2 is Apply { 1nat } else { 0nat }
    }
}

/// Applies finished cook results in the order they arrived, stopping once
/// `MAX_COLLIDER_SPAWNS_PER_TICK` current results were applied. A stale
/// result only ends its chunk's cooking; a current one also despawns the
/// chunk's previous collider entity (through `despawn`) and, when the job
/// produced a collider, spawns it (through `spawn`) and registers the new
/// entity. Returns what became of each result taken, and the results left
/// for the next call.
pub fn apply_cook_results<T, D: Fn(EntityId), S: Fn(ChunkPos, T) -> EntityId>(
    cooking: &mut ColliderCookingInProgress,
    versions: &ColliderVersionTracker,
    registry: &mut ChunkColliderEntityRegistry,
    results: Vec<CookResult<T>>,
    despawn: D,
    spawn: S,
) -> (r: (Vec<AppliedCook>, Vec<CookResult<T>>))
    requires
        old(cooking).wf(),
        versions.wf(),
        old(registry).wf(),
        forall|e: EntityId| despawn.requires((e,)),
        forall|p: ChunkPos, t: T| spawn.requires((p, t)),
    ensures
        final(cooking).wf(),
        final(registry).wf(),
        r.0@.len() <= results@.len(),
        r.1@ == results@.skip(r.0@.len() as int),
        spec_applied_count(r.0@) <= MAX_COLLIDER_SPAWNS_PER_TICK,
        r.1@.len() > 0 ==> spec_applied_count(r.0@) == MAX_COLLIDER_SPAWNS_PER_TICK,
        forall|j: int| 0 <= j < r.0@.len() ==> (#[trigger] r.0@[j]).0 == results@[j].chunk_pos && r.0@[j].1 == results@[j].version,
        forall|j: int| 0 <= j < r.0@.len() ==> (#[trigger] r.0@[j]).2 == ({
            let pos = results@[j].chunk_pos;
            let before = spec_applied_run((old(cooking)@, old(registry)@), r.0@.take(j)).1;
            if results@[j].version != versions.spec_current(pos) {
                CookResultAction::Stale
            } else {
                CookResultAction::Apply {
                    despawn: if before.contains_key(pos) { Some(before[pos]) } else { None },
                    spawn: results@[j].collider is Some,
                }
            }
        }),
        forall|j: int| 0 <= j < r.0@.len() ==> ((#[trigger] r.0@[j]).3 is Some <==> (r.0@[j].2 is Apply && results@[j].collider is Some)),
        forall|j: int| 0 <= j < r.0@.len() ==> ((#[trigger] r.0@[j]).3 matches Some(id) ==> (results@[j].collider matches Some(t)
            && spawn.ensures((r.0@[j].0, t), id))),
        (final(cooking)@, final(registry)@) == spec_applied_run((old(cooking)@, old(registry)@), r.0@),
{
    let ghost s0 = (cooking@, registry@);
    let ghost all = results@;
    let mut rest = results;
    let mut out: Vec<AppliedCook> = Vec::new();
    let mut applied: usize = 0;
    while applied < MAX_COLLIDER_SPAWNS_PER_TICK && rest.len() > 0
        invariant
            cooking.wf(),
            versions.wf(),
            registry.wf(),
            forall|e: EntityId| despawn.requires((e,)),
            forall|p: ChunkPos, t: T| spawn.requires((p, t)),
            out@.len() <= all.len(),
            rest@ == all.skip(out@.len() as int),
            applied == spec_applied_count(out@),
            applied <= MAX_COLLIDER_SPAWNS_PER_TICK,
            forall|j: int| 0 <= j < out@.len() ==> (#[trigger] out@[j]).0 == all[j].chunk_pos && out@[j].1 == all[j].version,
            forall|j: int| 0 <= j < out@.len() ==> (#[trigger] out@[j]).2 == ({
                let pos = all[j].chunk_pos;
                let before = spec_applied_run(s0, out@.take(j)).1;
                if all[j].version != versions.spec_current(pos) {
                    CookResultAction::Stale
                } else {
                    CookResultAction::Apply {
                        despawn: if before.contains_key(pos) { Some(before[pos]) } else { None },
                        spawn: all[j].collider is Some,
                    }
                }
            }),
            forall|j: int| 0 <= j < out@.len() ==> ((#[trigger] out@[j]).3 is Some <==> (out@[j].2 is Apply && all[j].collider is Some)),
            forall|j: int| 0 <= j < out@.len() ==> ((#[trigger] out@[j]).3 matches Some(id) ==> (all[j].collider matches Some(t)
                && spawn.ensures((out@[j].0, t), id))),
            (cooking@, registry@) == spec_applied_run(s0, out@),
        decreases rest@.len(),
    {
        let ghost k = out@.len() as int;
        let ghost before_out = out@;
        let ghost reg0 = registry@;
        let ghost cook0 = cooking@;
        let result = rest.remove(0);
        assert(result == all[k]);
        let pos = result.chunk_pos;
        let version = result.version;
        let has_collider = result.collider.is_some();
        let action = apply_cook_result(cooking, versions, registry, pos, version, has_collider);
        let spawned = match action {
            CookResultAction::Stale => None,
            CookResultAction::Apply { despawn: old_entity, spawn: _ } => {
                if let Some(e) = old_entity {
                    despawn(e);
                }
                applied = applied + 1;
                match result.collider {
                    Some(t) => {
                        let id = spawn(pos, t);
                        registry.register(pos, id);
                        Some(id)
                    },
                    None => None,
                }
            },
        };
        let entry = (pos, version, action, spawned);
        out.push(entry);
        proof {
            assert(out@.drop_last() =~= before_out);
            assert(out@.take(k) =~= before_out);
            assert forall|j: int| 0 <= j < k implies #[trigger] out@.take(j) == before_out.take(j) by {
                assert(out@.take(j) =~= before_out.take(j));
            }
            assert(rest@ =~= all.skip(out@.len() as int));
            assert(spec_applied_run(s0, out@) == spec_applied_step(spec_applied_run(s0, before_out), entry));
            assert((cooking@, registry@) == spec_applied_step((cook0, reg0), entry));
        }
    }
    (out, rest)
}

/// Cancels everything about the collider of `pos` (its column was
/// unloaded): pending and running jobs and the registry entry, and moves
/// the chunk to a new version so that results of jobs already dispatched
/// are discarded as stale; returns the collider entity to despawn.
pub fn forget_chunk_collider(
    queue: &mut ColliderCookQueue,
    cooking: &mut ColliderCookingInProgress,
    versions: &mut ColliderVersionTracker,
    registry: &mut ChunkColliderEntityRegistry,
    pos: ChunkPos,
) -> (r: Option<EntityId>)
    requires
        old(queue).wf(),
        old(cooking).wf(),
        old(versions).wf(),
        old(registry).wf(),
        old(versions).spec_current(pos) < u64::MAX,
    ensures
        final(queue).wf(),
        final(cooking).wf(),
        final(versions).wf(),
        final(registry).wf(),
        final(queue)@ == old(queue)@.remove(pos),
        final(cooking)@ == old(cooking)@.remove(pos),
        final(versions)@ == spec_forget_version(old(versions)@, pos),
        final(registry)@ == old(registry)@.remove(pos),
        r == if old(registry)@.contains_key(pos) { Some(old(registry)@[pos]) } else { None::<EntityId> },
{
    let _ = queue.pending.remove(&pos);
    let _ = cooking.chunks.remove(&pos);
    if versions.versions.contains_key(&pos) {
        let _ = versions.next_version(pos);
    }
    registry.entities.remove(&pos)
}

/// A cook result from a job dispatched before its chunk was forgotten (its
/// column unloaded) is stale from then on: right after the unload, and
/// after any number of later dispatches for the chunk.
pub proof fn lemma_result_before_unload_stale(m: Map<ChunkPos, u64>, pos: ChunkPos, earlier: u64, later_jobs: nat)
    requires
        1 <= earlier <= spec_current_version(m, pos),
        spec_current_version(m, pos) + 1 + later_jobs <= u64::MAX,
    ensures
        spec_current_version(spec_forget_version(m, pos), pos) > earlier,
        spec_current_version(spec_dispatch_n(spec_forget_version(m, pos), pos, later_jobs), pos) > earlier,
{
    lemma_dispatch_n_current(spec_forget_version(m, pos), pos, later_jobs);
}

proof fn lemma_dispatch_n_current(m: Map<ChunkPos, u64>, pos: ChunkPos, n: nat)
    requires
        spec_current_version(m, pos) + n <= u64::MAX,
    ensures
        spec_current_version(spec_dispatch_n(m, pos, n), pos) == spec_current_version(m, pos) + n,
    decreases n,
{
    if n > 0 {
        lemma_dispatch_n_current(m, pos, (n - 1) as nat);
    }
}

/// The version map after `n` more jobs are dispatched for `pos`.
pub open spec fn spec_dispatch_n(m: Map<ChunkPos, u64>, pos: ChunkPos, n: nat) -> Map<ChunkPos, u64>
    decreases n,
{
    if n == 0 {
        m
    } else {
        let prev = spec_dispatch_n(m, pos, (n - 1) as nat);
        prev.insert(pos, (spec_current_version(prev, pos) + 1) as u64)
    }
}

/// Dispatching a job makes its version the chunk's latest: a cook result
/// carrying that version is applied, and a result of any earlier job is
/// stale. Versions of a chunk only grow.
pub proof fn lemma_latest_version_wins(m: Map<ChunkPos, u64>, pos: ChunkPos, earlier: u64)
    requires
        spec_current_version(m, pos) < u64::MAX,
        earlier <= spec_current_version(m, pos),
    ensures
        ({
            let v = (spec_current_version(m, pos) + 1) as u64;
            let after = m.insert(pos, v);
            &&& spec_current_version(after, pos) == v
            &&& earlier != spec_current_version(after, pos)
            &&& earlier < v
        }),
{
}

/// After folding requests in, a chunk is pending exactly when it was pending
/// or was requested, and its level of detail is the lowest of its old one
/// and every requested one.
pub proof fn lemma_coalesce_keeps_lowest_lod(m: Map<ChunkPos, usize>, rs: Seq<ChunkColliderRebuildRequest>, p: ChunkPos)
    ensures
        spec_coalesce(m, rs).contains_key(p) <==> (m.contains_key(p)
            || exists|i: int| 0 <= i < rs.len() && rs[i].chunk_pos == p),
        spec_coalesce(m, rs).contains_key(p) ==> {
            let v = spec_coalesce(m, rs)[p];
            &&& (m.contains_key(p) ==> v <= m[p])
            &&& (forall|i: int| 0 <= i < rs.len() && rs[i].chunk_pos == p ==> v <= rs[i].lod)
            &&& ((m.contains_key(p) && v == m[p]) || exists|i: int|
                0 <= i < rs.len() && rs[i].chunk_pos == p && v == rs[i].lod)
        },
    decreases rs.len(),
{
    if rs.len() > 0 {
        let pre = rs.drop_last();
        lemma_coalesce_keeps_lowest_lod(m, pre, p);
        assert forall|i: int| 0 <= i < pre.len() implies pre[i] == rs[i] by {}
        if exists|i: int| 0 <= i < rs.len() && rs[i].chunk_pos == p {
            let i = choose|i: int| 0 <= i < rs.len() && rs[i].chunk_pos == p;
            if i < pre.len() {
                assert(pre[i].chunk_pos == p);
            }
        }
        let prev = spec_coalesce(m, pre);
        if prev.contains_key(p) && (m.contains_key(p) && prev[p] == m[p]) {
        } else if prev.contains_key(p) {
            let j = choose|j: int| 0 <= j < pre.len() && pre[j].chunk_pos == p && prev[p] == pre[j].lod;
            assert(rs[j].chunk_pos == p && rs[j].lod == prev[p]);
        }
        if rs.last().chunk_pos == p {
            assert(rs[rs.len() - 1].chunk_pos == p);
        }
    }
}

impl Default for ColliderCookQueue {
    fn default() -> (r: ColliderCookQueue)
        ensures
            r.wf(),
            r@ == Map::<ChunkPos, usize>::empty(),
    {
        ColliderCookQueue { pending: KeyedVec::new() }
    }
}

impl Default for ColliderCookingInProgress {
    fn default() -> (r: ColliderCookingInProgress)
        ensures
            r.wf(),
            r@ == Set::<ChunkPos>::empty(),
    {
        ColliderCookingInProgress { chunks: KeySet::new() }
    }
}

impl Default for ColliderVersionTracker {
    fn default() -> (r: ColliderVersionTracker)
        ensures
            r.wf(),
            r@ == Map::<ChunkPos, u64>::empty(),
    {
        ColliderVersionTracker { versions: KeyedVec::new() }
    }
}

impl Default for ChunkColliderEntityRegistry {
    fn default() -> (r: ChunkColliderEntityRegistry)
        ensures
            r.wf(),
            r@ == Map::<ChunkPos, EntityId>::empty(),
    {
        ChunkColliderEntityRegistry { entities: KeyedVec::new() }
    }
}

} // verus!
