use vstd::prelude::*;

use crate::keyed::{KeyedVec, KeySet};
use crate::players::PlayerId;
use crate::collider_sync::ChunkColliderRebuildRequest;
use crate::pos::{ChunkPos, ColPos};

verus! {

/// Most chunks sent to one client in one streaming tick.
pub const MAX_CHUNKS_PER_CLIENT_PER_TICK: usize = 16;

/// Tracks which chunks have been sent to each connected client, so the same
/// chunk data is not sent twice; a changed chunk is invalidated and sent
/// again on the next streaming tick.
pub struct ChunkDeliveryTracker {
    chunks_delivered_to_client: KeyedVec<PlayerId, KeySet<ChunkPos>>,
}

impl ChunkDeliveryTracker {
    /// The chunks delivered to each known client.
    pub open spec fn view(&self) -> Map<PlayerId, Set<ChunkPos>> {
        Map::new(
            |c: PlayerId| self.clients()@.contains_key(c),
            |c: PlayerId| self.clients()@[c]@,
        )
    }

    pub closed spec fn clients(&self) -> KeyedVec<PlayerId, KeySet<ChunkPos>> {
        self.chunks_delivered_to_client
    }

    pub closed spec fn wf(&self) -> bool {
        &&& self.chunks_delivered_to_client.wf()
        &&& forall|i: int| 0 <= i < self.chunks_delivered_to_client.entries().len()
            ==> (#[trigger] self.chunks_delivered_to_client.entries()[i]).1.wf()
    }

    /// Whether `pos` is recorded as delivered to `client`.
    pub open spec fn spec_delivered(&self, client: PlayerId, pos: ChunkPos) -> bool {
        self@.contains_key(client) && self@[client].contains(pos)
    }

    proof fn lemma_value_wf(&self, c: PlayerId)
        requires
            self.wf(),
            self.clients()@.contains_key(c),
        ensures
            self.clients()@[c].wf(),
    {
        let s = self.chunks_delivered_to_client.entries();
        crate::keyed::lemma_assoc_map_contains(s, c);
        let i = choose|i: int| 0 <= i < s.len() && s[i].0 == c;
        crate::keyed::lemma_assoc_map_index(s, i);
        assert(s[i].1.wf());
    }

    /// Records that `chunk_position` was sent to `client_id`.
    pub fn mark_delivered(&mut self, client_id: PlayerId, chunk_position: ChunkPos)
        requires
            old(self).wf(),
        ensures
            final(self).wf(),
            final(self)@ == spec_tracker_step(old(self)@, TrackerOp::Mark(client_id, chunk_position)),
            final(self)@ == old(self)@.insert(
                client_id,
                if old(self)@.contains_key(client_id) {
                    old(self)@[client_id].insert(chunk_position)
                } else {
                    Set::<ChunkPos>::empty().insert(chunk_position)
                },
            ),
    {
        let ghost s0 = self.chunks_delivered_to_client.entries();
        match self.chunks_delivered_to_client.index_of(&client_id) {
            Some(i) => {
                let set = self.chunks_delivered_to_client.value_at_mut(i);
                let _ = set.insert(chunk_position);
                proof {
                    let s1 = self.chunks_delivered_to_client.entries();
                    assert forall|j: int| 0 <= j < s1.len() implies (#[trigger] s1[j]).1.wf() by {
                        if j != i {
                            assert(s1[j] == s0[j]);
                        }
                    }
                    crate::keyed::lemma_assoc_map_index(s0, i as int);
                }
            },
            None => {
                let mut set = KeySet::new();
                let _ = set.insert(chunk_position);
                self.chunks_delivered_to_client.insert(client_id, set);
                proof {
                    let s1 = self.chunks_delivered_to_client.entries();
                    assert forall|j: int| 0 <= j < s1.len() implies (#[trigger] s1[j]).1.wf() by {
                        if j < s0.len() {
                            assert(s1[j] == s0[j]);
                        }
                    }
                }
            },
        }
        assert(self@ =~= old(self)@.insert(
            client_id,
            if old(self)@.contains_key(client_id) {
                old(self)@[client_id].insert(chunk_position)
            } else {
                Set::<ChunkPos>::empty().insert(chunk_position)
            },
        ));
    }

    /// Whether `chunk_position` was sent to `client_id`.
    pub fn was_delivered(&self, client_id: PlayerId, chunk_position: &ChunkPos) -> (r: bool)
        requires
            self.wf(),
        ensures
            r == self.spec_delivered(client_id, *chunk_position),
    {
        match self.chunks_delivered_to_client.get(&client_id) {
            Some(set) => {
                proof {
                    self.lemma_value_wf(client_id);
                }
                set.contains(chunk_position)
            },
            None => false,
        }
    }

    /// Forgets that `chunk_position` was sent to anyone, so it is sent again.
    pub fn invalidate_chunk(&mut self, chunk_position: &ChunkPos)
        requires
            old(self).wf(),
        ensures
            final(self).wf(),
            final(self)@ == spec_tracker_step(old(self)@, TrackerOp::Invalidate(*chunk_position)),
            final(self)@.dom() == old(self)@.dom(),
            forall|c: PlayerId| #[trigger] old(self)@.contains_key(c)
                ==> final(self)@[c] == old(self)@[c].remove(*chunk_position),
    {
        let n = self.chunks_delivered_to_client.len();
        let ghost s0 = self.chunks_delivered_to_client.entries();
        let mut i: usize = 0;
        while i < n
            invariant
                self.wf(),
                n == s0.len(),
                i <= n,
                self.chunks_delivered_to_client.entries().len() == n,
                forall|j: int| 0 <= j < n ==> (#[trigger] self.chunks_delivered_to_client.entries()[j]).0 == s0[j].0,
                forall|j: int| 0 <= j < i ==> (#[trigger] self.chunks_delivered_to_client.entries()[j]).1@
                    == s0[j].1@.remove(*chunk_position),
                forall|j: int| i <= j < n ==> (#[trigger] self.chunks_delivered_to_client.entries()[j]).1@ == s0[j].1@,
            decreases n - i,
        {
            let ghost s1 = self.chunks_delivered_to_client.entries();
            let set = self.chunks_delivered_to_client.value_at_mut(i);
            let _ = set.remove(chunk_position);
            proof {
                let s2 = self.chunks_delivered_to_client.entries();
                assert forall|j: int| 0 <= j < s2.len() implies (#[trigger] s2[j]).1.wf() by {
                    if j != i {
                        assert(s2[j] == s1[j]);
                    }
                }
                assert forall|j: int| 0 <= j < n && j != i implies #[trigger] s2[j] == s1[j] by {}
            }
            i = i + 1;
        }
        proof {
            let s = self.chunks_delivered_to_client.entries();
            assert forall|c: PlayerId| #[trigger] self@.contains_key(c) == old(self)@.contains_key(c) by {
                crate::keyed::lemma_assoc_map_contains(s, c);
                crate::keyed::lemma_assoc_map_contains(s0, c);
                if self@.contains_key(c) {
                    let j = choose|j: int| 0 <= j < s.len() && s[j].0 == c;
                    assert(s0[j].0 == c);
                }
                if old(self)@.contains_key(c) {
                    let j = choose|j: int| 0 <= j < s0.len() && s0[j].0 == c;
                    assert(s[j].0 == c);
                }
            }
            assert(self@.dom() =~= old(self)@.dom());
            assert forall|c: PlayerId| #[trigger] old(self)@.contains_key(c)
                implies self@[c] == old(self)@[c].remove(*chunk_position) by {
                crate::keyed::lemma_assoc_map_contains(s0, c);
                let j = choose|j: int| 0 <= j < s0.len() && s0[j].0 == c;
                crate::keyed::lemma_assoc_map_index(s0, j);
                assert(s[j].0 == c);
                crate::keyed::lemma_assoc_map_index(s, j);
            }
        }
    }

    /// Forgets everything about `client_id` (it disconnected).
    pub fn remove_client(&mut self, client_id: PlayerId)
        requires
            old(self).wf(),
        ensures
            final(self).wf(),
            final(self)@ == spec_tracker_step(old(self)@, TrackerOp::RemoveClient(client_id)),
            final(self)@ == old(self)@.remove(client_id),
    {
        let ghost s0 = self.chunks_delivered_to_client.entries();
        let _ = self.chunks_delivered_to_client.remove(&client_id);
        proof {
            let s1 = self.chunks_delivered_to_client.entries();
            if old(self)@.contains_key(client_id) {
                let i = choose|i: int| 0 <= i < s0.len() && s0[i].0 == client_id && s1 == s0.remove(i);
                assert forall|j: int| 0 <= j < s1.len() implies (#[trigger] s1[j]).1.wf() by {
                    if j < i {
                        assert(s1[j] == s0[j]);
                    } else {
                        assert(s1[j] == s0[j + 1]);
                    }
                }
            }
        }
        assert(self@ =~= old(self)@.remove(client_id));
    }
}

/// An operation on a delivery tracker, as seen by the delivery laws.
pub enum TrackerOp {
    Mark(PlayerId, ChunkPos),
    Invalidate(ChunkPos),
    RemoveClient(PlayerId),
}

/// The tracker's record after one operation.
pub open spec fn spec_tracker_step(m: Map<PlayerId, Set<ChunkPos>>, op: TrackerOp) -> Map<PlayerId, Set<ChunkPos>> {
    match op {
        TrackerOp::Mark(c, p) => spec_mark_one(m, c, p),
        TrackerOp::Invalidate(p) => Map::new(|c: PlayerId| m.contains_key(c), |c: PlayerId| m[c].remove(p)),
        TrackerOp::RemoveClient(c) => m.remove(c),
    }
}

/// The tracker's record after a sequence of operations.
pub open spec fn spec_tracker_run(m: Map<PlayerId, Set<ChunkPos>>, ops: Seq<TrackerOp>) -> Map<PlayerId, Set<ChunkPos>>
    decreases ops.len(),
{
    if ops.len() == 0 {
        m
    } else {
        spec_tracker_step(spec_tracker_run(m, ops.drop_last()), ops.last())
    }
}

/// Operation `i` marks `p` for `c`, and no later operation invalidates `p`
/// or removes `c`.
pub open spec fn mark_survives(ops: Seq<TrackerOp>, i: int, c: PlayerId, p: ChunkPos) -> bool {
    &&& 0 <= i < ops.len()
    &&& ops[i] == TrackerOp::Mark(c, p)
    &&& forall|j: int| i < j < ops.len() ==> #[trigger] ops[j] != TrackerOp::Invalidate(p) && ops[j] != TrackerOp::RemoveClient(c)
}

/// Starting from an empty tracker, `p` counts as delivered to `c` after a
/// sequence of operations exactly when some operation marked it for `c`
/// and no later one invalidated `p` or removed `c`.
pub proof fn lemma_delivered_after_ops(ops: Seq<TrackerOp>, c: PlayerId, p: ChunkPos)
    ensures
        ({
            let m = spec_tracker_run(Map::empty(), ops);
            (m.contains_key(c) && m[c].contains(p)) <==> exists|i: int| #[trigger] mark_survives(ops, i, c, p)
        }),
    decreases ops.len(),
{
    let m = spec_tracker_run(Map::empty(), ops);
    if ops.len() == 0 {
        assert(!exists|i: int| #[trigger] mark_survives(ops, i, c, p));
    } else {
        let pre = ops.drop_last();
        let last = ops.last();
        let n = ops.len() - 1;
        lemma_delivered_after_ops(pre, c, p);
        let m0 = spec_tracker_run(Map::empty(), pre);
        let before = m0.contains_key(c) && m0[c].contains(p);
        let now = m.contains_key(c) && m[c].contains(p);
        let kills = last == TrackerOp::Invalidate(p) || last == TrackerOp::RemoveClient(c);
        // A surviving mark of `pre` survives in `ops` unless the last operation kills it.
        assert forall|i: int| 0 <= i < n implies #[trigger] mark_survives(ops, i, c, p) == (mark_survives(pre, i, c, p) && !kills) by {
            assert(ops[i] == pre[i]);
            if mark_survives(pre, i, c, p) && !kills {
                assert forall|j: int| i < j < ops.len() implies #[trigger] ops[j] != TrackerOp::Invalidate(p) && ops[j] != TrackerOp::RemoveClient(c) by {
                    if j < n {
                        assert(ops[j] == pre[j]);
                    }
                }
            }
            if mark_survives(ops, i, c, p) {
                assert(ops[n] == last);
                assert forall|j: int| i < j < pre.len() implies #[trigger] pre[j] != TrackerOp::Invalidate(p) && pre[j] != TrackerOp::RemoveClient(c) by {
                    assert(ops[j] == pre[j]);
                }
            }
        }
        assert(mark_survives(ops, n, c, p) == (last == TrackerOp::Mark(c, p)));
        match last {
            TrackerOp::Mark(c2, p2) => {
                assert(now == (before || (c2 == c && p2 == p)));
                if now {
                    if c2 == c && p2 == p {
                        assert(mark_survives(ops, n, c, p));
                    } else {
                        let i = choose|i: int| #[trigger] mark_survives(pre, i, c, p);
                        assert(mark_survives(ops, i, c, p));
                    }
                } else {
                    assert forall|i: int| !#[trigger] mark_survives(ops, i, c, p) by {
                        if 0 <= i < n {
                            assert(!mark_survives(pre, i, c, p));
                        }
                    }
                }
            },
            TrackerOp::Invalidate(p2) => {
                assert(now == (before && p2 != p));
                if now {
                    let i = choose|i: int| #[trigger] mark_survives(pre, i, c, p);
                    assert(mark_survives(ops, i, c, p));
                } else {
                    assert forall|i: int| !#[trigger] mark_survives(ops, i, c, p) by {
                        if 0 <= i < n {
                            assert(!mark_survives(pre, i, c, p) || kills);
                        }
                    }
                }
            },
            TrackerOp::RemoveClient(c2) => {
                assert(now == (before && c2 != c));
                if now {
                    let i = choose|i: int| #[trigger] mark_survives(pre, i, c, p);
                    assert(mark_survives(ops, i, c, p));
                } else {
                    assert forall|i: int| !#[trigger] mark_survives(ops, i, c, p) by {
                        if 0 <= i < n {
                            assert(!mark_survives(pre, i, c, p) || kills);
                        }
                    }
                }
            },
        }
    }
}

/// Handles chunks the world reports as changed: each is invalidated for every
/// client, so it is streamed again, and gets a full-detail collider rebuild
/// request, in the order reported.
pub fn process_chunk_changes(tracker: &mut ChunkDeliveryTracker, changes: &Vec<ChunkPos>) -> (r: Vec<ChunkColliderRebuildRequest>)
    requires
        old(tracker).wf(),
    ensures
        final(tracker).wf(),
        final(tracker)@.dom() == old(tracker)@.dom(),
        forall|c: PlayerId| #[trigger] old(tracker)@.contains_key(c)
            ==> final(tracker)@[c] == old(tracker)@[c].difference(changes@.to_set()),
        r@ == changes@.map_values(|p: ChunkPos| ChunkColliderRebuildRequest { chunk_pos: p, lod: 1 }),
{
    let mut out: Vec<ChunkColliderRebuildRequest> = Vec::new();
    let mut i: usize = 0;
    while i < changes.len()
        invariant
            tracker.wf(),
            i <= changes@.len(),
            tracker@.dom() == old(tracker)@.dom(),
            forall|c: PlayerId| #[trigger] old(tracker)@.contains_key(c)
                ==> tracker@[c] == old(tracker)@[c].difference(changes@.take(i as int).to_set()),
            out@ == changes@.take(i as int).map_values(|p: ChunkPos| ChunkColliderRebuildRequest { chunk_pos: p, lod: 1 }),
        decreases changes@.len() - i,
    {
        let p = changes[i];
        let ghost before = tracker@;
        tracker.invalidate_chunk(&p);
        out.push(ChunkColliderRebuildRequest::new(p));
        proof {
            assert(changes@.take(i + 1) =~= changes@.take(i as int).push(p));
            changes@.take(i as int).lemma_push_to_set_commute(p);
            assert forall|c: PlayerId| #[trigger] old(tracker)@.contains_key(c)
                implies tracker@[c] == old(tracker)@[c].difference(changes@.take(i + 1).to_set()) by {
                assert(tracker@[c] =~= old(tracker)@[c].difference(changes@.take(i + 1).to_set()));
            }
            assert(out@ =~= changes@.take(i + 1).map_values(|p: ChunkPos| ChunkColliderRebuildRequest { chunk_pos: p, lod: 1 }));
        }
        i = i + 1;
    }
    assert(changes@.take(changes@.len() as int) =~= changes@);
    out
}

/// The record after marking one chunk as delivered to `c`.
pub open spec fn spec_mark_one(m: Map<PlayerId, Set<ChunkPos>>, c: PlayerId, p: ChunkPos) -> Map<PlayerId, Set<ChunkPos>> {
    m.insert(c, if m.contains_key(c) { m[c].insert(p) } else { Set::<ChunkPos>::empty().insert(p) })
}

/// The record after marking each chunk of `s`, in order, as delivered to `c`.
pub open spec fn spec_mark_all(m: Map<PlayerId, Set<ChunkPos>>, c: PlayerId, s: Seq<ChunkPos>) -> Map<PlayerId, Set<ChunkPos>>
    decreases s.len(),
{
    if s.len() == 0 {
        m
    } else {
        spec_mark_one(spec_mark_all(m, c, s.drop_last()), c, s.last())
    }
}

/// After marking `s` for `c`, a chunk counts as delivered to `c` exactly
/// when it was before or it is in `s`.
pub proof fn lemma_mark_all_delivered(m: Map<PlayerId, Set<ChunkPos>>, c: PlayerId, s: Seq<ChunkPos>, p: ChunkPos)
    ensures
        (spec_mark_all(m, c, s).contains_key(c) && spec_mark_all(m, c, s)[c].contains(p))
            == ((m.contains_key(c) && m[c].contains(p)) || s.contains(p)),
    decreases s.len(),
{
    if s.len() > 0 {
        lemma_mark_all_delivered(m, c, s.drop_last(), p);
        if s.drop_last().contains(p) {
            let k = choose|k: int| 0 <= k < s.drop_last().len() && s.drop_last()[k] == p;
            assert(s[k] == p);
        }
        if s.contains(p) && p != s.last() {
            let k = choose|k: int| 0 <= k < s.len() && s[k] == p;
            assert(s.drop_last()[k] == p);
        }
    }
}

/// The chunk at height `y` of the column `(dx, dz)` away from `center`.
pub open spec fn spec_stream_chunk(center: ColPos, dx: int, dz: int, y: int) -> ChunkPos {
    ChunkPos { x: (center.x + dx) as i32, y: y as i32, z: (center.z + dz) as i32, realm: center.realm }
}

/// Every chunk within `rd` columns of `center` (a square), in the order the
/// server considers them: by `dx` from `-rd` to `rd`, then by `dz`, then
/// bottom to top within a column of `yc` chunks.
pub open spec fn spec_stream_candidates(center: ColPos, rd: int, yc: int) -> Seq<ChunkPos> {
    let side = 2 * rd + 1;
    if rd < 0 || yc <= 0 {
        Seq::empty()
    } else {
        Seq::new(
            (side * side * yc) as nat,
            |i: int| spec_stream_chunk(center, (i / yc) / side - rd, (i / yc) % side - rd, i % yc),
        )
    }
}

/// Whether a chunk still has to be sent to `c`: not delivered yet, and loaded.
pub open spec fn spec_fresh(m: Map<PlayerId, Set<ChunkPos>>, c: PlayerId, loaded: Set<ChunkPos>) -> spec_fn(ChunkPos) -> bool {
    |p: ChunkPos| !(m.contains_key(c) && m[c].contains(p)) && loaded.contains(p)
}

/// The chunks to send to `c` this tick: the first
/// `MAX_CHUNKS_PER_CLIENT_PER_TICK` fresh candidates, in candidate order.
pub open spec fn spec_chunks_to_stream(
    m: Map<PlayerId, Set<ChunkPos>>,
    c: PlayerId,
    loaded: Set<ChunkPos>,
    center: ColPos,
    rd: int,
    yc: int,
) -> Seq<ChunkPos> {
    let f = spec_stream_candidates(center, rd, yc).filter(spec_fresh(m, c, loaded));
    if f.len() <= MAX_CHUNKS_PER_CLIENT_PER_TICK {
        f
    } else {
        f.take(MAX_CHUNKS_PER_CLIENT_PER_TICK as int)
    }
}

/// The coordinates of every candidate fit in `i32`.
pub open spec fn stream_in_range(center: ColPos, rd: int) -> bool {
    rd >= 0 ==> (i32::MIN <= center.x - rd && center.x + rd <= i32::MAX && i32::MIN <= center.z - rd
        && center.z + rd <= i32::MAX)
}

proof fn lemma_candidate_at(center: ColPos, rd: int, yc: int, a: int, b: int, y: int)
    requires
        rd >= 0,
        yc > 0,
        0 <= a < 2 * rd + 1,
        0 <= b < 2 * rd + 1,
        0 <= y < yc,
    ensures
        ({
            let i = (a * (2 * rd + 1) + b) * yc + y;
            &&& 0 <= i < spec_stream_candidates(center, rd, yc).len()
            &&& spec_stream_candidates(center, rd, yc)[i] == spec_stream_chunk(center, a - rd, b - rd, y)
        }),
{
    let side = 2 * rd + 1;
    let q = a * side + b;
    let i = q * yc + y;
    assert(0 <= q < side * side) by (nonlinear_arith)
        requires
            0 <= a < side,
            0 <= b < side,
            q == a * side + b,
    ;
    assert(0 <= i < side * side * yc) by (nonlinear_arith)
        requires
            0 <= q < side * side,
            0 <= y < yc,
            i == q * yc + y,
    ;
    vstd::arithmetic::div_mod::lemma_fundamental_div_mod_converse(i, yc, q, y);
    vstd::arithmetic::div_mod::lemma_fundamental_div_mod_converse(q, side, a, b);
}

proof fn lemma_candidates_distinct(center: ColPos, rd: int, yc: int, i: int, j: int)
    requires
        rd >= 0,
        yc > 0,
        yc <= i32::MAX,
        stream_in_range(center, rd),
        0 <= i < spec_stream_candidates(center, rd, yc).len(),
        0 <= j < spec_stream_candidates(center, rd, yc).len(),
        spec_stream_candidates(center, rd, yc)[i] == spec_stream_candidates(center, rd, yc)[j],
    ensures
        i == j,
{
    let side = 2 * rd + 1;
    let n = side * side * yc;
    assert(0 <= i / yc < side * side && 0 <= j / yc < side * side) by {
        vstd::arithmetic::div_mod::lemma_div_is_ordered(i, n, yc);
        vstd::arithmetic::div_mod::lemma_div_by_multiple(side * side, yc);
        vstd::arithmetic::div_mod::lemma_div_is_ordered(j, n, yc);
        vstd::arithmetic::div_mod::lemma_div_pos_is_pos(i, yc);
        vstd::arithmetic::div_mod::lemma_div_pos_is_pos(j, yc);
        assert(i / yc <= n / yc);
        vstd::arithmetic::div_mod::lemma_div_by_multiple_is_strongly_ordered(i, n, side * side, yc);
        vstd::arithmetic::div_mod::lemma_div_by_multiple_is_strongly_ordered(j, n, side * side, yc);
    }
    let qi = i / yc;
    let qj = j / yc;
    assert(0 <= qi / side < side && 0 <= qj / side < side) by {
        vstd::arithmetic::div_mod::lemma_div_by_multiple_is_strongly_ordered(qi, side * side, side, side);
        vstd::arithmetic::div_mod::lemma_div_by_multiple_is_strongly_ordered(qj, side * side, side, side);
        vstd::arithmetic::div_mod::lemma_div_pos_is_pos(qi, side);
        vstd::arithmetic::div_mod::lemma_div_pos_is_pos(qj, side);
        vstd::arithmetic::div_mod::lemma_div_by_multiple(side, side);
    }
    vstd::arithmetic::div_mod::lemma_mod_bound(i, yc);
    vstd::arithmetic::div_mod::lemma_mod_bound(j, yc);
    vstd::arithmetic::div_mod::lemma_mod_bound(qi, side);
    vstd::arithmetic::div_mod::lemma_mod_bound(qj, side);
    assert(i % yc == j % yc);
    assert(qi / side == qj / side);
    assert(qi % side == qj % side);
    vstd::arithmetic::div_mod::lemma_fundamental_div_mod(qi, side);
    vstd::arithmetic::div_mod::lemma_fundamental_div_mod(qj, side);
    assert(qi == qj);
    vstd::arithmetic::div_mod::lemma_fundamental_div_mod(i, yc);
    vstd::arithmetic::div_mod::lemma_fundamental_div_mod(j, yc);
}

/// Picks the chunks to stream to `client_id` this tick around the column
/// `center` (within `render_distance` columns, `y_chunks` chunks per column),
/// skipping chunks already delivered and chunks not in `loaded`, and marks
/// the picked chunks as delivered.
pub fn select_chunks_to_stream(
    tracker: &mut ChunkDeliveryTracker,
    client_id: PlayerId,
    center: ColPos,
    render_distance: i32,
    y_chunks: i32,
    loaded: &KeySet<ChunkPos>,
) -> (r: Vec<ChunkPos>)
    requires
        old(tracker).wf(),
        loaded.wf(),
        y_chunks > 0,
        stream_in_range(center, render_distance as int),
    ensures
        final(tracker).wf(),
        r@ == spec_chunks_to_stream(old(tracker)@, client_id, loaded@, center, render_distance as int, y_chunks as int),
        final(tracker)@ == spec_mark_all(old(tracker)@, client_id, r@),
{
    let ghost m0 = tracker@;
    let ghost fresh = spec_fresh(m0, client_id, loaded@);
    let ghost cands = spec_stream_candidates(center, render_distance as int, y_chunks as int);
    let mut out: Vec<ChunkPos> = Vec::new();
    if render_distance < 0 {
        assert(cands.filter(fresh) =~= Seq::<ChunkPos>::empty()) by {
            cands.lemma_filter_len(fresh);
        }
        return out;
    }
    let rd = render_distance;
    let ghost side = 2 * rd + 1;
    let ghost n = side * side * y_chunks;
    let rd64 = rd as i64;
    let mut dx: i64 = -rd64;
    let mut dz: i64 = -rd64;
    let mut y: i32 = 0;
    let ghost mut i: int = 0;
    assert(0 == ((dx + rd) * side + (dz + rd)) * y_chunks + y) by (nonlinear_arith)
        requires
            dx + rd == 0,
            dz + rd == 0,
            y == 0,
    ;
    assert(cands.take(0).filter(fresh) =~= Seq::<ChunkPos>::empty()) by {
        cands.take(0).lemma_filter_len(fresh);
    }
    while dx <= rd64 && out.len() < MAX_CHUNKS_PER_CLIENT_PER_TICK
        invariant
            tracker.wf(),
            loaded.wf(),
            rd >= 0,
            rd64 == rd,
            y_chunks > 0,
            side == 2 * rd + 1,
            n == side * side * y_chunks,
            cands.len() == n,
            cands == spec_stream_candidates(center, rd as int, y_chunks as int),
            fresh == spec_fresh(m0, client_id, loaded@),
            stream_in_range(center, rd as int),
            -rd <= dx <= rd + 1,
            -rd <= dz <= rd,
            0 <= y < y_chunks,
            dx == rd + 1 ==> dz == -rd && y == 0,
            i == ((dx + rd) * side + (dz + rd)) * y_chunks + y,
            0 <= i <= n,
            out@ == cands.take(i).filter(fresh),
            out.len() <= MAX_CHUNKS_PER_CLIENT_PER_TICK,
            tracker@ == spec_mark_all(m0, client_id, out@),
        decreases n - i,
    {
        proof {
            lemma_candidate_at(center, rd as int, y_chunks as int, dx + rd, dz + rd, y as int);
        }
        let ghost odx = dx as int;
        let ghost odz = dz as int;
        let ghost oy = y as int;
        let ghost old_out = out@;
        let p = ChunkPos { x: (center.x as i64 + dx) as i32, y, z: (center.z as i64 + dz) as i32, realm: center.realm };
        assert(p == cands[i]);
        let delivered = tracker.was_delivered(client_id, &p);
        let is_loaded = loaded.contains(&p);
        proof {
            lemma_mark_all_delivered(m0, client_id, out@, p);
            if out@.contains(p) {
                let k = choose|k: int| 0 <= k < out@.len() && out@[k] == p;
                cands.take(i).lemma_filter_contains_rev(fresh, p);
                let j = choose|j: int| 0 <= j < cands.take(i).len() && cands.take(i)[j] == p;
                assert(cands[j] == p);
                lemma_candidates_distinct(center, rd as int, y_chunks as int, i, j);
                assert(false);
            }
            assert(cands.take(i + 1) =~= cands.take(i).push(p));
            cands.take(i).lemma_filter_push(p, fresh);
        }
        if !delivered && is_loaded {
            out.push(p);
            tracker.mark_delivered(client_id, p);
            proof {
                assert(out@.drop_last() =~= old_out);
            }
        }
        y = y + 1;
        if y == y_chunks {
            y = 0;
            dz = dz + 1;
            if dz > rd64 {
                dz = -rd64;
                dx = dx + 1;
            }
        }
        proof {
            let i1 = i + 1;
            assert(i1 == ((dx + rd) * side + (dz + rd)) * y_chunks + y) by (nonlinear_arith)
                requires
                    i1 == i + 1,
                    i == ((odx + rd) * side + (odz + rd)) * y_chunks + oy,
                    side == 2 * rd + 1,
                    oy + 1 < y_chunks ==> (dx == odx && dz == odz && y == oy + 1),
                    oy + 1 == y_chunks && odz + 1 <= rd ==> (dx == odx && dz == odz + 1 && y == 0),
                    oy + 1 == y_chunks && odz + 1 > rd ==> (dx == odx + 1 && dz == -rd && y == 0 && odz == rd),
                    oy + 1 <= y_chunks,
            ;
            i = i1;
        }
    }
    proof {
        if out.len() == MAX_CHUNKS_PER_CLIENT_PER_TICK {
            let a = cands.take(i);
            let b = cands.skip(i);
            assert(cands =~= a + b);
            Seq::filter_distributes_over_add(a, b, fresh);
            assert(cands.filter(fresh).take(MAX_CHUNKS_PER_CLIENT_PER_TICK as int) =~= a.filter(fresh));
        } else {
            assert(i == n) by (nonlinear_arith)
                requires
                    dx == rd + 1,
                    dz == -rd,
                    y == 0,
                    i == ((dx + rd) * side + (dz + rd)) * y_chunks + y,
                    side == 2 * rd + 1,
                    n == side * side * y_chunks,
            ;
            assert(cands.take(i) =~= cands);
        }
    }
    out
}

/// Marking a chunk makes it delivered to that client and changes nothing
/// else; forgetting a chunk (as `invalidate_chunk` does for every client)
/// makes it undelivered, so it is streamed again.
pub proof fn lemma_mark_then_invalidate(m: Map<PlayerId, Set<ChunkPos>>, c: PlayerId, p: ChunkPos, d: PlayerId, q: ChunkPos)
    ensures
        spec_mark_one(m, c, p).contains_key(c) && spec_mark_one(m, c, p)[c].contains(p),
        (d != c || q != p) ==> ((spec_mark_one(m, c, p).contains_key(d) && spec_mark_one(m, c, p)[d].contains(q))
            == (m.contains_key(d) && m[d].contains(q))),
        !spec_mark_one(m, c, p)[c].remove(p).contains(p),
{
}

/// The chunks picked for a client are loaded, were not delivered to it
/// before, are distinct, and are at most `MAX_CHUNKS_PER_CLIENT_PER_TICK`.
pub proof fn lemma_streamed_chunks_fresh(
    m: Map<PlayerId, Set<ChunkPos>>,
    c: PlayerId,
    loaded: Set<ChunkPos>,
    center: ColPos,
    rd: int,
    yc: int,
)
    requires
        stream_in_range(center, rd),
        0 < yc <= i32::MAX,
    ensures
        ({
            let s = spec_chunks_to_stream(m, c, loaded, center, rd, yc);
            &&& s.len() <= MAX_CHUNKS_PER_CLIENT_PER_TICK
            &&& s.no_duplicates()
            &&& forall|i: int| 0 <= i < s.len() ==> loaded.contains(#[trigger] s[i])
                && !(m.contains_key(c) && m[c].contains(s[i]))
        }),
{
    let cands = spec_stream_candidates(center, rd, yc);
    let pred = spec_fresh(m, c, loaded);
    let f = cands.filter(pred);
    let s = spec_chunks_to_stream(m, c, loaded, center, rd, yc);
    assert forall|i: int| 0 <= i < s.len() implies loaded.contains(#[trigger] s[i]) && !(m.contains_key(c) && m[c].contains(s[i])) by {
        assert(s[i] == f[i]);
        cands.lemma_filter_pred(pred, i);
    }
    if rd >= 0 {
        assert(cands.no_duplicates()) by {
            assert forall|i: int, j: int| 0 <= i < cands.len() && 0 <= j < cands.len() && i != j implies cands[i] != cands[j] by {
                if cands[i] == cands[j] {
                    lemma_candidates_distinct(center, rd, yc, i, j);
                }
            }
        }
        lemma_filter_no_duplicates(cands, pred);
    } else {
        assert(cands.len() == 0);
        cands.lemma_filter_len(pred);
    }
    assert forall|i: int, j: int| 0 <= i < s.len() && 0 <= j < s.len() && i != j implies s[i] != s[j] by {
        assert(s[i] == f[i] && s[j] == f[j]);
    }
}

/// Two streaming ticks in a row never send the same chunk to a client: what
/// the first tick picked is marked delivered, and the second tick only picks
/// chunks that were not delivered (unless an invalidation came between).
pub proof fn lemma_no_chunk_sent_twice(
    m: Map<PlayerId, Set<ChunkPos>>,
    c: PlayerId,
    loaded: Set<ChunkPos>,
    center: ColPos,
    rd: int,
    yc: int,
    p: ChunkPos,
)
    requires
        stream_in_range(center, rd),
        0 < yc <= i32::MAX,
    ensures
        ({
            let first = spec_chunks_to_stream(m, c, loaded, center, rd, yc);
            let after = spec_mark_all(m, c, first);
            let second = spec_chunks_to_stream(after, c, loaded, center, rd, yc);
            first.contains(p) ==> !second.contains(p)
        }),
{
    let first = spec_chunks_to_stream(m, c, loaded, center, rd, yc);
    let after = spec_mark_all(m, c, first);
    let second = spec_chunks_to_stream(after, c, loaded, center, rd, yc);
    if first.contains(p) && second.contains(p) {
        lemma_streamed_chunks_fresh(after, c, loaded, center, rd, yc);
        let i = choose|i: int| 0 <= i < second.len() && second[i] == p;
        assert(!(after.contains_key(c) && after[c].contains(second[i])));
        lemma_mark_all_delivered(m, c, first, p);
    }
}

proof fn lemma_filter_no_duplicates<A>(s: Seq<A>, pred: spec_fn(A) -> bool)
    requires
        s.no_duplicates(),
    ensures
        s.filter(pred).no_duplicates(),
    decreases s.len(),
{
    reveal_with_fuel(Seq::filter, 1);
    if s.len() > 0 {
        let t = s.drop_last();
        assert(t.no_duplicates());
        lemma_filter_no_duplicates(t, pred);
        if pred(s.last()) {
            assert(!t.contains(s.last()));
            assert forall|x: A| t.filter(pred).contains(x) implies t.contains(x) by {
                t.lemma_filter_contains_rev(pred, x);
            }
            assert(!t.filter(pred).contains(s.last()));
            assert(s.filter(pred) == t.filter(pred).push(s.last()));
        } else {
            assert(s.filter(pred) == t.filter(pred));
        }
    }
}

impl Default for ChunkDeliveryTracker {
    /// A tracker with no clients.
    fn default() -> (r: ChunkDeliveryTracker)
        ensures
            r.wf(),
            r@ == Map::<PlayerId, Set<ChunkPos>>::empty(),
    {
        let r = ChunkDeliveryTracker { chunks_delivered_to_client: KeyedVec::new() };
        assert(r@ =~= Map::<PlayerId, Set<ChunkPos>>::empty());
        r
    }
}

} // verus!
