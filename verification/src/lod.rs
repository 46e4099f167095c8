use vstd::prelude::*;

use crate::chunk::{Chunk, CHUNKP_S3, CHUNK_S1, air_voxels, pad_linearize, spec_pad_linearize, spec_linearize};

verus! {

/// Lexicographic order on voxel coordinates (x first, then y, then z).
pub open spec fn lex_lt(a: (int, int, int), b: (int, int, int)) -> bool {
    a.0 < b.0 || (a.0 == b.0 && (a.1 < b.1 || (a.1 == b.1 && a.2 < b.2)))
}

/// `p` lies in the box `[lo, hi)`.
pub open spec fn in_box(p: (int, int, int), lo: (int, int, int), hi: (int, int, int)) -> bool {
    lo.0 <= p.0 < hi.0 && lo.1 <= p.1 < hi.1 && lo.2 <= p.2 < hi.2
}

/// The voxel at chunk coordinates `p` is not air.
pub open spec fn solid_at(data: Seq<u16>, p: (int, int, int)) -> bool {
    data[spec_pad_linearize(p.0, p.1, p.2)] != 0
}

/// `p` is the first non-air voxel of the box in lexicographic order.
pub open spec fn is_first_solid(data: Seq<u16>, lo: (int, int, int), hi: (int, int, int), p: (int, int, int)) -> bool {
    &&& in_box(p, lo, hi)
    &&& solid_at(data, p)
    &&& forall|q: (int, int, int)| in_box(q, lo, hi) && lex_lt(q, p) ==> !#[trigger] solid_at(data, q)
}

/// The first non-air voxel of the box in lexicographic order, or air (0).
pub open spec fn spec_first_solid(data: Seq<u16>, lo: (int, int, int), hi: (int, int, int)) -> u16 {
    if exists|p: (int, int, int)| is_first_solid(data, lo, hi, p) {
        let p = choose|p: (int, int, int)| is_first_solid(data, lo, hi, p);
        data[spec_pad_linearize(p.0, p.1, p.2)]
    } else {
        0
    }
}

/// Padded coordinates `(x, y, z)` of a padded chunk index.
pub open spec fn spec_decode(i: int) -> (int, int, int) {
    ((i / 64) % 64, i / 4096, i % 64)
}

/// The cell of a level-of-detail grid stored at index `i`.
pub open spec fn spec_lod_cell(i: int) -> (int, int, int) {
    let d = spec_decode(i);
    (d.0 - 1, d.1 - 1, d.2 - 1)
}

/// Cell coordinate `c` names a cell of the level-of-detail grid.
pub open spec fn cell_valid(c: int, lod: int) -> bool {
    0 <= c && c * lod < CHUNK_S1
}

pub open spec fn min_int(a: int, b: int) -> int {
    if a < b { a } else { b }
}

/// One voxel of the reduced grid: the first non-air voxel of its cell of
/// `lod`^3 chunk voxels (cut off at the chunk's edge), or air.
pub open spec fn spec_lod_voxel(data: Seq<u16>, lod: int, i: int) -> u16 {
    let c = spec_lod_cell(i);
    if cell_valid(c.0, lod) && cell_valid(c.1, lod) && cell_valid(c.2, lod) {
        spec_first_solid(
            data,
            (c.0 * lod, c.1 * lod, c.2 * lod),
            (min_int(c.0 * lod + lod, CHUNK_S1 as int), min_int(c.1 * lod + lod, CHUNK_S1 as int),
                min_int(c.2 * lod + lod, CHUNK_S1 as int)),
        )
    } else {
        0
    }
}

/// The voxels of a chunk at a level of detail: the chunk itself at 1; at
/// `lod` > 1, a padded grid whose cell `(cx, cy, cz)` holds the first
/// non-air voxel of the chunk voxels `[c * lod, c * lod + lod)` on each axis.
pub open spec fn spec_voxel_data_lod(data: Seq<u16>, lod: int) -> Seq<u16> {
    if lod == 1 {
        data
    } else {
        Seq::new(CHUNKP_S3 as nat, |i: int| spec_lod_voxel(data, lod, i))
    }
}

proof fn lemma_decode_pad(a: int, b: int, c: int)
    requires
        0 <= a < 63,
        0 <= b < 63,
        0 <= c < 63,
    ensures
        spec_lod_cell(spec_pad_linearize(a, b, c)) == (a, b, c),
{
    let i = spec_pad_linearize(a, b, c);
    vstd::arithmetic::div_mod::lemma_fundamental_div_mod_converse(i, 64, (b + 1) * 64 + (a + 1), c + 1);
    vstd::arithmetic::div_mod::lemma_fundamental_div_mod_converse(i / 64, 64, b + 1, a + 1);
    vstd::arithmetic::div_mod::lemma_fundamental_div_mod_converse(i, 4096, b + 1, (a + 1) * 64 + c + 1);
}

proof fn lemma_decode_inverse(i: int)
    requires
        0 <= i < CHUNKP_S3,
    ensures
        ({
            let d = spec_decode(i);
            &&& 0 <= d.0 < 64 && 0 <= d.1 < 64 && 0 <= d.2 < 64
            &&& spec_linearize(d.0, d.1, d.2) == i
        }),
{
    vstd::arithmetic::div_mod::lemma_fundamental_div_mod(i, 64);
    vstd::arithmetic::div_mod::lemma_fundamental_div_mod(i / 64, 64);
    vstd::arithmetic::div_mod::lemma_div_denominator(i, 64, 64);
    vstd::arithmetic::div_mod::lemma_mod_bound(i, 64);
    vstd::arithmetic::div_mod::lemma_mod_bound(i / 64, 64);
    vstd::arithmetic::div_mod::lemma_div_pos_is_pos(i, 64);
    vstd::arithmetic::div_mod::lemma_div_pos_is_pos(i, 4096);
    vstd::arithmetic::div_mod::lemma_div_is_ordered(i, CHUNKP_S3 as int, 4096);
}

/// Distinct lexicographic positions are ordered one way or the other.
proof fn lemma_lex_total(a: (int, int, int), b: (int, int, int))
    ensures
        a == b || lex_lt(a, b) || lex_lt(b, a),
{
}

/// The first non-air voxel of a chunk box `[x0, x1) x [y0, y1) x [z0, z1)`,
/// in lexicographic order, or air.
fn first_solid_voxel(data: &Vec<u16>, x0: usize, x1: usize, y0: usize, y1: usize, z0: usize, z1: usize) -> (r: u16)
    requires
        data@.len() == CHUNKP_S3,
        x1 <= CHUNK_S1,
        y1 <= CHUNK_S1,
        z1 <= CHUNK_S1,
    ensures
        r == spec_first_solid(data@, (x0 as int, y0 as int, z0 as int), (x1 as int, y1 as int, z1 as int)),
{
    let ghost lo = (x0 as int, y0 as int, z0 as int);
    let ghost hi = (x1 as int, y1 as int, z1 as int);
    let mut x = x0;
    while x < x1
        invariant
            data@.len() == CHUNKP_S3,
            x0 <= x,
            x1 <= CHUNK_S1,
            y1 <= CHUNK_S1,
            z1 <= CHUNK_S1,
            lo == (x0 as int, y0 as int, z0 as int),
            hi == (x1 as int, y1 as int, z1 as int),
            forall|q: (int, int, int)| in_box(q, lo, hi) && q.0 < x ==> !#[trigger] solid_at(data@, q),
        decreases x1 - x,
    {
        let mut y = y0;
        while y < y1
            invariant
                data@.len() == CHUNKP_S3,
                x0 <= x < x1,
                y0 <= y,
                x1 <= CHUNK_S1,
                y1 <= CHUNK_S1,
                z1 <= CHUNK_S1,
                lo == (x0 as int, y0 as int, z0 as int),
                hi == (x1 as int, y1 as int, z1 as int),
                forall|q: (int, int, int)| in_box(q, lo, hi) && (q.0 < x || (q.0 == x && q.1 < y))
                    ==> !#[trigger] solid_at(data@, q),
            decreases y1 - y,
        {
            let mut z = z0;
            while z < z1
                invariant
                    data@.len() == CHUNKP_S3,
                    x0 <= x < x1,
                    y0 <= y < y1,
                    z0 <= z,
                    x1 <= CHUNK_S1,
                    y1 <= CHUNK_S1,
                    z1 <= CHUNK_S1,
                    lo == (x0 as int, y0 as int, z0 as int),
                    hi == (x1 as int, y1 as int, z1 as int),
                    forall|q: (int, int, int)| in_box(q, lo, hi) && lex_lt(q, (x as int, y as int, z as int))
                        ==> !#[trigger] solid_at(data@, q),
                decreases z1 - z,
            {
                let v = data[pad_linearize(x, y, z)];
                if v != 0 {
                    proof {
                        let p = (x as int, y as int, z as int);
                        assert(is_first_solid(data@, lo, hi, p));
                        let p2 = choose|p2: (int, int, int)| is_first_solid(data@, lo, hi, p2);
                        lemma_lex_total(p, p2);
                    }
                    return v;
                }
                z = z + 1;
            }
            y = y + 1;
        }
        x = x + 1;
    }
    proof {
        assert forall|p: (int, int, int)| !is_first_solid(data@, lo, hi, p) by {
            if in_box(p, lo, hi) {
                assert(!solid_at(data@, p));
            }
        }
    }
    0
}

/// The voxels of a chunk at level of detail `lod` (1 = full detail): each
/// cell of `lod`^3 voxels becomes one voxel holding the cell's first
/// non-air voxel.
pub fn voxel_data_lod<B>(chunk: &Chunk<B>, lod: usize) -> (r: Vec<u16>)
    requires
        chunk.wf(),
        lod >= 1,
    ensures
        r@ == spec_voxel_data_lod(chunk.data@, lod as int),
{
    if lod == 1 {
        return chunk.data.clone();
    }
    let data = &chunk.data;
    let mut lod_voxels = air_voxels();
    let step = lod;
    let ghost l = lod as int;
    let mut cx: usize = 0;
    let mut base_x: usize = 0;
    while base_x < CHUNK_S1
        invariant
            data@.len() == CHUNKP_S3,
            lod_voxels@.len() == CHUNKP_S3,
            step == lod,
            l == lod as int,
            lod >= 2,
            base_x as int == min_int(cx * lod, CHUNK_S1 as int),
            cx <= CHUNK_S1,
            forall|i: int| 0 <= i < CHUNKP_S3 ==> #[trigger] lod_voxels@[i] == if lex_lt(spec_lod_cell(i), (cx as int, 0, 0)) {
                spec_lod_voxel(data@, l, i)
            } else {
                0
            },
        decreases CHUNK_S1 - cx,
    {
        assert(cx <= base_x) by (nonlinear_arith)
            requires
                base_x == cx * lod,
                lod >= 2,
        ;
        let max_x = if step < CHUNK_S1 - base_x { base_x + step } else { CHUNK_S1 };
        let mut cy: usize = 0;
        let mut base_y: usize = 0;
        while base_y < CHUNK_S1
            invariant
                data@.len() == CHUNKP_S3,
                lod_voxels@.len() == CHUNKP_S3,
                step == lod,
                l == lod as int,
                lod >= 2,
                    base_x == cx * lod,
                base_x < CHUNK_S1,
                max_x == min_int(base_x + lod, CHUNK_S1 as int),
                base_y as int == min_int(cy * lod, CHUNK_S1 as int),
                cy <= CHUNK_S1,
                forall|i: int| 0 <= i < CHUNKP_S3 ==> #[trigger] lod_voxels@[i] == if lex_lt(spec_lod_cell(i), (cx as int, cy as int, 0)) {
                    spec_lod_voxel(data@, l, i)
                } else {
                    0
                },
            decreases CHUNK_S1 - cy,
        {
            assert(cy <= base_y) by (nonlinear_arith)
                requires
                    base_y == cy * lod,
                    lod >= 2,
            ;
            let max_y = if step < CHUNK_S1 - base_y { base_y + step } else { CHUNK_S1 };
            let mut cz: usize = 0;
            let mut base_z: usize = 0;
            while base_z < CHUNK_S1
                invariant
                    data@.len() == CHUNKP_S3,
                    lod_voxels@.len() == CHUNKP_S3,
                    step == lod,
                    l == lod as int,
                    lod >= 2,
                            base_x == cx * lod,
                    base_x < CHUNK_S1,
                    max_x == min_int(base_x + lod, CHUNK_S1 as int),
                    base_y == cy * lod,
                    base_y < CHUNK_S1,
                    max_y == min_int(base_y + lod, CHUNK_S1 as int),
                    base_z as int == min_int(cz * lod, CHUNK_S1 as int),
                    cz <= CHUNK_S1,
                    forall|i: int| 0 <= i < CHUNKP_S3 ==> #[trigger] lod_voxels@[i] == if lex_lt(spec_lod_cell(i), (cx as int, cy as int, cz as int)) {
                        spec_lod_voxel(data@, l, i)
                    } else {
                        0
                    },
                decreases CHUNK_S1 - cz,
            {
                let max_z = if step < CHUNK_S1 - base_z { base_z + step } else { CHUNK_S1 };
                proof {
                    assert(cx <= base_x && cy <= base_y && cz <= base_z) by (nonlinear_arith)
                        requires
                            base_x == cx * lod,
                            base_y == cy * lod,
                            base_z == cz * lod,
                            lod >= 2,
                    ;
                }
                let lod_index = pad_linearize(cx, cy, cz);
                proof {
                    lemma_decode_pad(cx as int, cy as int, cz as int);
                }
                if lod_voxels[lod_index] != 0 {
                    base_z = max_z;
                    cz = cz + 1;
                    assert(false);
                    continue;
                }
                let v = first_solid_voxel(data, base_x, max_x, base_y, max_y, base_z, max_z);
                let ghost before = lod_voxels@;
                lod_voxels.set(lod_index, v);
                proof {
                    assert forall|i: int| 0 <= i < CHUNKP_S3 implies #[trigger] lod_voxels@[i] == if lex_lt(spec_lod_cell(i), (cx as int, cy as int, cz + 1)) {
                        spec_lod_voxel(data@, l, i)
                    } else {
                        0
                    } by {
                        if i == lod_index as int {
                            assert(cell_valid(cx as int, l) && cell_valid(cy as int, l) && cell_valid(cz as int, l));
                        } else {
                            assert(lod_voxels@[i] == before[i]);
                            if spec_lod_cell(i) == (cx as int, cy as int, cz as int) {
                                lemma_decode_inverse(i);
                                assert(false);
                            }
                        }
                    }
                }
                base_z = max_z;
                cz = cz + 1;
                assert(cz * lod == (cz - 1) * lod + lod) by (nonlinear_arith);
            }
            proof {
                assert forall|i: int| 0 <= i < CHUNKP_S3 implies #[trigger] lod_voxels@[i] == if lex_lt(spec_lod_cell(i), (cx as int, cy as int + 1, 0)) {
                    spec_lod_voxel(data@, l, i)
                } else {
                    0
                } by {
                    let c = spec_lod_cell(i);
                    if c.0 == cx && c.1 == cy && c.2 >= cz {
                        assert(c.2 * l >= cz * l) by (nonlinear_arith)
                            requires
                                c.2 >= cz,
                                l >= 2,
                        ;
                        assert(!cell_valid(c.2, l));
                    }
                }
            }
            base_y = max_y;
            cy = cy + 1;
            assert(cy * lod == (cy - 1) * lod + lod) by (nonlinear_arith);
        }
        proof {
            assert forall|i: int| 0 <= i < CHUNKP_S3 implies #[trigger] lod_voxels@[i] == if lex_lt(spec_lod_cell(i), (cx as int + 1, 0, 0)) {
                spec_lod_voxel(data@, l, i)
            } else {
                0
            } by {
                let c = spec_lod_cell(i);
                if c.0 == cx && c.1 >= cy {
                    assert(c.1 * l >= cy * l) by (nonlinear_arith)
                        requires
                            c.1 >= cy,
                            l >= 2,
                    ;
                    assert(!cell_valid(c.1, l));
                }
            }
        }
        base_x = max_x;
        cx = cx + 1;
        assert(cx * lod == (cx - 1) * lod + lod) by (nonlinear_arith);
    }
    proof {
        assert forall|i: int| 0 <= i < CHUNKP_S3 implies #[trigger] lod_voxels@[i] == spec_lod_voxel(data@, l, i) by {
            let c = spec_lod_cell(i);
            if c.0 >= cx {
                assert(c.0 * l >= cx * l) by (nonlinear_arith)
                    requires
                        c.0 >= cx,
                        l >= 2,
                ;
                assert(!cell_valid(c.0, l));
            }
        }
        assert(lod_voxels@ =~= spec_voxel_data_lod(data@, l));
    }
    lod_voxels
}

} // verus!
