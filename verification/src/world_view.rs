use vstd::prelude::*;

use crate::keyed::KeySet;
use crate::pos::{ChunkPos, ColPos, spec_col_of};

verus! {

/// Highest render distance a server accepts, in columns.
pub const MAX_RENDER_DISTANCE: i32 = 32;

/// A render distance given to the server is accepted when it lies in
/// `1..=MAX_RENDER_DISTANCE`.
pub fn render_distance_valid(render_distance: i32) -> (r: bool)
    ensures
        r == (1 <= render_distance <= MAX_RENDER_DISTANCE),
{
    render_distance >= 1 && render_distance <= MAX_RENDER_DISTANCE
}

/// A loaded column is too far from the player's column: in another realm,
/// or more than `distance` columns away along x or z.
pub open spec fn spec_column_out_of_range(col: ColPos, player: ColPos, distance: int) -> bool {
    col.realm != player.realm || spec_abs(col.x - player.x) > distance || spec_abs(col.z - player.z) > distance
}

pub open spec fn spec_abs(v: int) -> int {
    if v < 0 { -v } else { v }
}

/// The coordinate differences of two columns fit in `i32` and have an
/// absolute value there.
pub open spec fn column_offsets_fit(col: ColPos, player: ColPos) -> bool {
    &&& i32::MIN < col.x - player.x <= i32::MAX
    &&& i32::MIN < col.z - player.z <= i32::MAX
}

/// Whether a loaded column should be unloaded given the player's column and
/// the render distance.
pub fn column_out_of_range(col: &ColPos, player: &ColPos, distance: i32) -> (r: bool)
    requires
        column_offsets_fit(*col, *player),
    ensures
        r == spec_column_out_of_range(*col, *player, distance as int),
{
    let dx = col.x - player.x;
    let dz = col.z - player.z;
    let dx = if dx < 0 { -dx } else { dx };
    let dz = if dz < 0 { -dz } else { dz };
    col.realm != player.realm || dx > distance || dz > distance
}

/// The loaded columns to unload, in the order given.
pub fn columns_to_unload(loaded: &Vec<ColPos>, player: &ColPos, distance: i32) -> (r: Vec<ColPos>)
    requires
        forall|i: int| 0 <= i < loaded@.len() ==> column_offsets_fit(#[trigger] loaded@[i], *player),
    ensures
        r@ == loaded@.filter(|c: ColPos| spec_column_out_of_range(c, *player, distance as int)),
{
    let ghost pred = |c: ColPos| spec_column_out_of_range(c, *player, distance as int);
    let mut out: Vec<ColPos> = Vec::new();
    let mut i: usize = 0;
    assert(loaded@.take(0).filter(pred) =~= Seq::<ColPos>::empty()) by {
        loaded@.take(0).lemma_filter_len(pred);
    }
    while i < loaded.len()
        invariant
            i <= loaded@.len(),
            forall|k: int| 0 <= k < loaded@.len() ==> column_offsets_fit(#[trigger] loaded@[k], *player),
            pred == (|c: ColPos| spec_column_out_of_range(c, *player, distance as int)),
            out@ == loaded@.take(i as int).filter(pred),
        decreases loaded@.len() - i,
    {
        let c = loaded[i];
        proof {
            assert(loaded@.take(i + 1) =~= loaded@.take(i as int).push(c));
            loaded@.take(i as int).lemma_filter_push(c, pred);
        }
        if column_out_of_range(&c, player, distance) {
            out.push(c);
        }
        i = i + 1;
    }
    assert(loaded@.take(loaded@.len() as int) =~= loaded@);
    out
}

/// The distinct columns of the given chunks, in order of first appearance.
pub fn loaded_columns(chunks: &Vec<ChunkPos>) -> (r: Vec<ColPos>)
    ensures
        r@.no_duplicates(),
        r@.to_set() == chunks@.map_values(|p: ChunkPos| spec_col_of(p)).to_set(),
{
    let mut seen: KeySet<ColPos> = KeySet::new();
    let mut out: Vec<ColPos> = Vec::new();
    let mut i: usize = 0;
    while i < chunks.len()
        invariant
            i <= chunks@.len(),
            seen.wf(),
            out@.no_duplicates(),
            out@.to_set() == seen@,
            seen@ == chunks@.take(i as int).map_values(|p: ChunkPos| spec_col_of(p)).to_set(),
        decreases chunks@.len() - i,
    {
        let col = chunks[i].col();
        let ghost old_out = out@;
        proof {
            assert(chunks@.take(i + 1).map_values(|p: ChunkPos| spec_col_of(p))
                =~= chunks@.take(i as int).map_values(|p: ChunkPos| spec_col_of(p)).push(col));
            chunks@.take(i as int).map_values(|p: ChunkPos| spec_col_of(p)).lemma_push_to_set_commute(col);
        }
        if seen.insert(col) {
            out.push(col);
            proof {
                old_out.lemma_push_to_set_commute(col);
                assert forall|a: int, b: int| 0 <= a < out@.len() && 0 <= b < out@.len() && a != b implies out@[a] != out@[b] by {
                    if a == out@.len() - 1 {
                        assert(old_out.to_set().contains(out@[b]));
                    } else if b == out@.len() - 1 {
                        assert(old_out.to_set().contains(out@[a]));
                    }
                }
            }
        }
        i = i + 1;
    }
    assert(chunks@.take(chunks@.len() as int) =~= chunks@);
    out
}

} // verus!
