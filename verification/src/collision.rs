use vstd::prelude::*;

verus! {

// ---------------------------------------------------------------------------
// Voxel collision sweeps
//
// A moving box is tested against the block grid one axis at a time. Along the
// axis of motion the box edge crosses a run of block layers; on each layer
// the box covers a rectangle of blocks (its footprint). The first layer past
// the starting one whose footprint holds a solid block stops the motion.
// ---------------------------------------------------------------------------

/// The block coordinates crossed going from cell `start` to cell `end`:
/// `start, start + 1, ..., end` when moving in the positive direction, and
/// `start, start - 1, ..., end` otherwise (empty if `end` lies behind).
pub open spec fn spec_extent(start: int, end: int, positive: bool) -> Seq<int> {
    if positive {
        if start <= end {
            Seq::new((end - start + 1) as nat, |i: int| start + i)
        } else {
            Seq::empty()
        }
    } else {
        if end <= start {
            Seq::new((start - end + 1) as nat, |i: int| start - i)
        } else {
            Seq::empty()
        }
    }
}

pub open spec fn spec_cells(v: Seq<i32>) -> Seq<int> {
    v.map_values(|c: i32| c as int)
}

/// Block coordinates crossed between two cells, in the order of motion.
pub fn extent(start: i32, end: i32, positive: bool) -> (r: Vec<i32>)
    ensures
        spec_cells(r@) == spec_extent(start as int, end as int, positive),
{
    let mut out: Vec<i32> = Vec::new();
    if positive {
        let mut v: i64 = start as i64;
        while v <= end as i64
            invariant
                start <= v <= end as i64 + 1 || (v == start && start > end),
                spec_cells(out@) == Seq::new((v - start) as nat, |i: int| start + i),
            decreases end as i64 + 1 - v,
        {
            let ghost before = out@;
            out.push(v as i32);
            proof {
                assert(spec_cells(out@) =~= spec_cells(before).push(v as int));
            }
            v = v + 1;
            assert(spec_cells(out@) =~= Seq::new((v - start) as nat, |i: int| start + i));
        }
        assert(spec_cells(out@) =~= spec_extent(start as int, end as int, positive));
    } else {
        let mut v: i64 = start as i64;
        while v >= end as i64
            invariant
                end as i64 - 1 <= v <= start || (v == start && start < end),
                spec_cells(out@) == Seq::new((start - v) as nat, |i: int| start - i),
            decreases v - (end as i64 - 1),
        {
            let ghost before = out@;
            out.push(v as i32);
            proof {
                assert(spec_cells(out@) =~= spec_cells(before).push(v as int));
            }
            v = v - 1;
            assert(spec_cells(out@) =~= Seq::new((start - v) as nat, |i: int| start - i));
        }
        assert(spec_cells(out@) =~= spec_extent(start as int, end as int, positive));
    }
    out
}

/// Axis of motion.
#[derive(PartialEq, Eq, Structural, Debug, Clone, Copy)]
pub enum Axis {
    X,
    Y,
    Z,
}

/// Block at `layer` along `axis`, with `a` and `b` the other two coordinates
/// in x, y, z order.
pub open spec fn spec_cell(axis: Axis, layer: i32, a: i32, b: i32) -> (i32, i32, i32) {
    match axis {
        Axis::X => (layer, a, b),
        Axis::Y => (a, layer, b),
        Axis::Z => (a, b, layer),
    }
}

fn cell(axis: Axis, layer: i32, a: i32, b: i32) -> (r: (i32, i32, i32))
    ensures
        r == spec_cell(axis, layer, a, b),
{
    match axis {
        Axis::X => (layer, a, b),
        Axis::Y => (a, layer, b),
        Axis::Z => (a, b, layer),
    }
}

/// `is_solid` answered `answer` for the footprint block `(aa[i], bb[j])` on
/// `layer`.
pub open spec fn answered<F: Fn(i32, i32, i32) -> bool>(
    is_solid: F,
    axis: Axis,
    layer: i32,
    aa: Seq<i32>,
    bb: Seq<i32>,
    i: int,
    j: int,
    answer: bool,
) -> bool {
    let c = spec_cell(axis, layer, aa[i], bb[j]);
    is_solid.ensures((c.0, c.1, c.2), answer)
}

/// Some block of the footprint on `layer` was found solid.
pub open spec fn footprint_solid<F: Fn(i32, i32, i32) -> bool>(
    is_solid: F,
    axis: Axis,
    layer: i32,
    aa: Seq<i32>,
    bb: Seq<i32>,
) -> bool {
    exists|i: int, j: int|
        0 <= i < aa.len() && 0 <= j < bb.len() && #[trigger] answered(is_solid, axis, layer, aa, bb, i, j, true)
}

/// Every block of the footprint on `layer` was found not solid.
pub open spec fn footprint_clear<F: Fn(i32, i32, i32) -> bool>(
    is_solid: F,
    axis: Axis,
    layer: i32,
    aa: Seq<i32>,
    bb: Seq<i32>,
) -> bool {
    forall|i: int, j: int|
        0 <= i < aa.len() && 0 <= j < bb.len() ==> #[trigger] answered(is_solid, axis, layer, aa, bb, i, j, false)
}

/// Whether the footprint `aa` x `bb` on `layer` holds a solid block; the
/// blocks are asked in order, `aa` outer and `bb` inner, up to the first
/// solid one.
pub fn layer_blocked<F: Fn(i32, i32, i32) -> bool>(
    axis: Axis,
    layer: i32,
    aa: &Vec<i32>,
    bb: &Vec<i32>,
    is_solid: &F,
) -> (r: bool)
    requires
        forall|x: i32, y: i32, z: i32| is_solid.requires((x, y, z)),
    ensures
        r ==> footprint_solid(*is_solid, axis, layer, aa@, bb@),
        !r ==> footprint_clear(*is_solid, axis, layer, aa@, bb@),
{
    let mut i: usize = 0;
    while i < aa.len()
        invariant
            i <= aa@.len(),
            forall|x: i32, y: i32, z: i32| is_solid.requires((x, y, z)),
            forall|k: int, j: int|
                0 <= k < i && 0 <= j < bb@.len() ==> #[trigger] answered(*is_solid, axis, layer, aa@, bb@, k, j, false),
        decreases aa@.len() - i,
    {
        let mut j: usize = 0;
        while j < bb.len()
            invariant
                i < aa@.len(),
                j <= bb@.len(),
                forall|x: i32, y: i32, z: i32| is_solid.requires((x, y, z)),
                forall|k: int, l: int|
                    0 <= k < i && 0 <= l < bb@.len() ==> #[trigger] answered(*is_solid, axis, layer, aa@, bb@, k, l, false),
                forall|l: int| 0 <= l < j ==> #[trigger] answered(*is_solid, axis, layer, aa@, bb@, i as int, l, false),
            decreases bb@.len() - j,
        {
            let c = cell(axis, layer, aa[i], bb[j]);
            let solid = is_solid(c.0, c.1, c.2);
            if solid {
                assert(answered(*is_solid, axis, layer, aa@, bb@, i as int, j as int, true));
                return true;
            }
            j = j + 1;
        }
        i = i + 1;
    }
    false
}

/// `is_solid` answered `answer` for the block `(x, y, z)`.
pub open spec fn answered_at<F: Fn(i32, i32, i32) -> bool>(is_solid: F, x: i32, y: i32, z: i32, answer: bool) -> bool {
    is_solid.ensures((x, y, z), answer)
}

/// Which blocks a footprint names. On the X axis the footprint lists are the
/// y and z coordinates of the blocks on layer `x = layer`; on the Y axis they
/// are x and z on layer `y = layer`; on the Z axis x and y on layer
/// `z = layer`. So a layer is found solid exactly when `is_solid` answered
/// `true` for such a block, and clear exactly when it answered `false` for
/// every one of them.
pub proof fn lemma_footprint_blocks<F: Fn(i32, i32, i32) -> bool>(
    is_solid: F,
    layer: i32,
    aa: Seq<i32>,
    bb: Seq<i32>,
)
    ensures
        footprint_solid(is_solid, Axis::X, layer, aa, bb) <==> exists|i: int, j: int|
            0 <= i < aa.len() && 0 <= j < bb.len() && #[trigger] answered_at(is_solid, layer, aa[i], bb[j], true),
        footprint_solid(is_solid, Axis::Y, layer, aa, bb) <==> exists|i: int, j: int|
            0 <= i < aa.len() && 0 <= j < bb.len() && #[trigger] answered_at(is_solid, aa[i], layer, bb[j], true),
        footprint_solid(is_solid, Axis::Z, layer, aa, bb) <==> exists|i: int, j: int|
            0 <= i < aa.len() && 0 <= j < bb.len() && #[trigger] answered_at(is_solid, aa[i], bb[j], layer, true),
        footprint_clear(is_solid, Axis::X, layer, aa, bb) <==> forall|i: int, j: int|
            0 <= i < aa.len() && 0 <= j < bb.len() ==> #[trigger] answered_at(is_solid, layer, aa[i], bb[j], false),
        footprint_clear(is_solid, Axis::Y, layer, aa, bb) <==> forall|i: int, j: int|
            0 <= i < aa.len() && 0 <= j < bb.len() ==> #[trigger] answered_at(is_solid, aa[i], layer, bb[j], false),
        footprint_clear(is_solid, Axis::Z, layer, aa, bb) <==> forall|i: int, j: int|
            0 <= i < aa.len() && 0 <= j < bb.len() ==> #[trigger] answered_at(is_solid, aa[i], bb[j], layer, false),
{
    assert forall|i: int, j: int, b: bool| #![all_triggers]
        answered(is_solid, Axis::X, layer, aa, bb, i, j, b) == answered_at(is_solid, layer, aa[i], bb[j], b)
        && answered(is_solid, Axis::Y, layer, aa, bb, i, j, b) == answered_at(is_solid, aa[i], layer, bb[j], b)
        && answered(is_solid, Axis::Z, layer, aa, bb, i, j, b) == answered_at(is_solid, aa[i], bb[j], layer, b) by {}
}

/// The result of a sweep over `layers`: the first layer after the starting
/// one (`layers[0]`) whose footprint was found solid, every layer before it
/// having been found clear; `None` when all were found clear.
pub open spec fn sweep_outcome<F: Fn(i32, i32, i32) -> bool>(
    is_solid: F,
    axis: Axis,
    layers: Seq<i32>,
    aa: Seq<i32>,
    bb: Seq<i32>,
    r: Option<i32>,
) -> bool {
    match r {
        Some(l) => exists|k: int|
            1 <= k < layers.len() && layers[k] == l && #[trigger] footprint_solid(is_solid, axis, layers[k], aa, bb)
                && forall|m: int| 1 <= m < k ==> #[trigger] footprint_clear(is_solid, axis, layers[m], aa, bb),
        None => forall|m: int| 1 <= m < layers.len() ==> #[trigger] footprint_clear(is_solid, axis, layers[m], aa, bb),
    }
}

/// Sweeps a box along `axis` across `layers`, skipping the layer it starts
/// in, and returns the first layer whose footprint `aa` x `bb` holds a solid
/// block, if any.
pub fn first_blocked_layer<F: Fn(i32, i32, i32) -> bool>(
    axis: Axis,
    layers: &Vec<i32>,
    aa: &Vec<i32>,
    bb: &Vec<i32>,
    is_solid: &F,
) -> (r: Option<i32>)
    requires
        forall|x: i32, y: i32, z: i32| is_solid.requires((x, y, z)),
    ensures
        sweep_outcome(*is_solid, axis, layers@, aa@, bb@, r),
{
    let mut k: usize = 1;
    while k < layers.len()
        invariant
            1 <= k,
            forall|x: i32, y: i32, z: i32| is_solid.requires((x, y, z)),
            forall|m: int| 1 <= m < k && m < layers@.len() ==> #[trigger] footprint_clear(*is_solid, axis, layers@[m], aa@, bb@),
        decreases layers@.len() - k,
    {
        let layer = layers[k];
        if layer_blocked(axis, layer, aa, bb, is_solid) {
            assert(footprint_solid(*is_solid, axis, layers@[k as int], aa@, bb@));
            return Some(layer);
        }
        k = k + 1;
    }
    None
}

} // verus!
