use vstd::prelude::*;

use binary_greedy_meshing as bgm;

use crate::face::{
    Face, spec_face_from_index, spec_normal, spec_packed_positions, spec_packed_xyz, spec_triangle_cross,
    spec_vertex_info, spec_vertex_uv, spec_vertex_uvs, spec_vertices_packed, vertices_packed_defined,
};
use crate::greedy::QuadData;

verus! {

// ---------------------------------------------------------------------------
// Render data of one face group
//
// Each quad becomes four vertices of two words: the packed position and
// texture coordinates of the vertex, and the quad's shared info word
// `color << 15 | texture layer << 3 | face index`. The index buffer takes
// the mesher's standard six indices per quad.
// ---------------------------------------------------------------------------

/// Corner of quad `i`'s four vertices at position `k` (0..6) of its six
/// indices: the triangles `(2, 0, 1)` and `(1, 3, 2)`.
pub open spec fn spec_index_corner(k: int) -> int {
    if k == 0 {
        2
    } else if k == 1 {
        0
    } else if k == 2 {
        1
    } else if k == 3 {
        1
    } else if k == 4 {
        3
    } else {
        2
    }
}

/// The mesher's index buffer for `n` quads.
pub open spec fn spec_quad_indices(n: int) -> Seq<u32> {
    Seq::new((6 * n) as nat, |j: int| (4 * (j / 6) + spec_index_corner(j % 6)) as u32)
}

/// Calls `binary_greedy_meshing::indices(num_quads)`. Its source pushes, for
/// each quad `i`, the six indices `4i+2, 4i, 4i+1, 4i+1, 4i+3, 4i+2`; the
/// contract states that list, for counts small enough that `4i + 3` fits in
/// 32 bits and the `6 * num_quads` capacity fits in `usize`.
#[verifier::external_body]
fn quad_indices(num_quads: usize) -> (r: Vec<u32>)
    requires
        num_quads <= 0x4000_0000,
        6 * num_quads <= usize::MAX,
    ensures
        r@ == spec_quad_indices(num_quads as int),
{
    bgm::indices(num_quads)
}

/// Every index of the mesher's buffer for `n` quads refers to one of the
/// `4n` vertices, and each quad's six indices stay within its own four.
pub proof fn lemma_quad_indices_in_range(n: int, j: int)
    requires
        0 <= n <= 0x4000_0000,
        0 <= j < 6 * n,
    ensures
        spec_quad_indices(n)[j] < 4 * n,
        4 * (j / 6) <= spec_quad_indices(n)[j] < 4 * (j / 6) + 4,
{
    vstd::arithmetic::div_mod::lemma_fundamental_div_mod(j, 6);
    let q = j / 6;
    assert(0 <= q < n) by {
        vstd::arithmetic::div_mod::lemma_div_pos_is_pos(j, 6);
        vstd::arithmetic::div_mod::lemma_div_by_multiple_is_strongly_ordered(j, 6 * n, n, 6);
        vstd::arithmetic::div_mod::lemma_div_by_multiple(n, 6);
    }
    assert(0 <= 4 * q + spec_index_corner(j % 6) <= u32::MAX);
}

/// Grid position `(x, y, z)` of a packed vertex, read from its low 18 bits
/// (6 bits per axis, x lowest).
pub open spec fn spec_vertex_position(r: u32) -> (int, int, int) {
    ((r & 0x3f) as int, ((r >> 6u32) & 0x3f) as int, ((r >> 12u32) & 0x3f) as int)
}

/// A quad at `(x, y, z)` of size `w` x `h` (all already scaled by the level
/// of detail) stays inside the 64-cell grid along the directions in which
/// its face's vertices reach out from `(x, y, z)`.
pub open spec fn render_quad_in_grid(f: Face, x: int, y: int, z: int, w: int, h: int) -> bool {
    &&& 0 <= x < 64 && 0 <= y < 64 && 0 <= z < 64 && 0 <= w && 0 <= h
    &&& match f {
        Face::Left => y + w < 64 && z + h < 64,
        Face::Down => w <= x && z + h < 64,
        Face::Back => x + w < 64 && y + h < 64,
        Face::Right => w <= y && z + h < 64,
        Face::Up => x + w < 64 && z + h < 64,
        Face::Front => w <= x && y + h < 64,
    }
}

proof fn lemma_packed_xyz_value(a: u32, b: u32, c: u32)
    requires
        a < 64,
        b < 64,
        c < 64,
    ensures
        spec_packed_xyz(a, b, c) as int == a + 64 * b + 4096 * c,
{
    assert(((c << 12u32) | (b << 6u32) | a) == a + 64 * b + 4096 * c) by (bit_vector)
        requires
            a < 64,
            b < 64,
            c < 64,
    ;
}

/// A vertex packed at grid position `(a, b, c)` reads back as that position,
/// whatever its texture coordinates.
proof fn lemma_vertex_at(pos: int, a: int, b: int, c: int, u: u32, v: u32)
    requires
        0 <= a < 64,
        0 <= b < 64,
        0 <= c < 64,
        pos == a + 64 * b + 4096 * c,
    ensures
        spec_vertex_position(spec_vertex_info(pos as u32, u, v)) == (a, b, c),
{
    let a32 = a as u32;
    let b32 = b as u32;
    let c32 = c as u32;
    lemma_packed_xyz_value(a32, b32, c32);
    let p = spec_packed_xyz(a32, b32, c32);
    assert(pos as u32 == p);
    assert((((v << 24u32) | (u << 18u32) | p) & 0x3f) == a32
        && ((((v << 24u32) | (u << 18u32) | p) >> 6u32) & 0x3f) == b32
        && ((((v << 24u32) | (u << 18u32) | p) >> 12u32) & 0x3f) == c32) by (bit_vector)
        requires
            p == (c32 << 12u32) | (b32 << 6u32) | a32,
            a32 < 64,
            b32 < 64,
            c32 < 64,
    ;
}

/// Grid positions of the four vertices that `vertices_packed` lays out for
/// a quad at scaled position `(x, y, z)` of scaled size `w` x `h`.
spec fn spec_render_corners(f: Face, x: int, y: int, z: int, w: int, h: int) -> Seq<(int, int, int)> {
    match f {
        Face::Left => seq![(x, y, z), (x, y, z + h), (x, y + w, z), (x, y + w, z + h)],
        Face::Down => seq![(x - w, y, z + h), (x - w, y, z), (x, y, z + h), (x, y, z)],
        Face::Back => seq![(x, y, z), (x, y + h, z), (x + w, y, z), (x + w, y + h, z)],
        Face::Right => seq![(x, y, z), (x, y, z + h), (x, y - w, z), (x, y - w, z + h)],
        Face::Up => seq![(x + w, y, z + h), (x + w, y, z), (x, y, z + h), (x, y, z)],
        Face::Front => seq![(x - w, y + h, z), (x - w, y, z), (x, y + h, z), (x, y, z)],
    }
}

#[verifier::spinoff_prover]
#[verifier::rlimit(80)]
proof fn lemma_render_positions(f: Face, x: u32, y: u32, z: u32, w: u32, h: u32, lod: u32)
    requires
        x < 64,
        y < 64,
        z < 64,
        render_quad_in_grid(f, x * lod, y * lod, z * lod, w * lod, h * lod),
    ensures
        vertices_packed_defined(f, spec_packed_xyz(x, y, z), w, h, lod),
        forall|k: int| 0 <= k < 4 ==> spec_vertex_position(#[trigger] spec_vertices_packed(f, spec_packed_xyz(x, y, z), w, h, lod)[k])
            == spec_render_corners(f, x * lod, y * lod, z * lod, w * lod, h * lod)[k],
        forall|k: int| 0 <= k < 4 ==> 0 <= #[trigger] spec_packed_positions(f, spec_packed_xyz(x, y, z) * lod, (w * lod) as u32, (h * lod) as u32)[k] < 0x40000,
        forall|k: int| 0 <= k < 4 ==> #[trigger] spec_vertices_packed(f, spec_packed_xyz(x, y, z), w, h, lod)[k]
            == spec_vertex_info(
                spec_packed_positions(f, spec_packed_xyz(x, y, z) * lod, (w * lod) as u32, (h * lod) as u32)[k] as u32,
                spec_vertex_uvs(f, w, h)[k].0,
                spec_vertex_uvs(f, w, h)[k].1,
            ),
{
    let xs = x * lod;
    let ys = y * lod;
    let zs = z * lod;
    let ws = w * lod;
    let hs = h * lod;
    let xyz = spec_packed_xyz(x, y, z);
    lemma_packed_xyz_value(x, y, z);
    assert(xyz * lod == xs + 64 * ys + 4096 * zs) by (nonlinear_arith)
        requires
            xyz as int == x + 64 * y + 4096 * z,
            xs == x * lod,
            ys == y * lod,
            zs == z * lod,
    ;
    let w32 = (w * lod) as u32;
    let h32 = (h * lod) as u32;
    assert(w32 as int == ws && h32 as int == hs);
    lemma_packed_xyz_value(w32, 0, 0);
    lemma_packed_xyz_value(0, w32, 0);
    lemma_packed_xyz_value(0, 0, h32);
    lemma_packed_xyz_value(0, h32, 0);
    lemma_packed_xyz_value(0, w32, h32);
    lemma_packed_xyz_value(w32, 0, h32);
    lemma_packed_xyz_value(w32, h32, 0);
    let pos = spec_packed_positions(f, xyz * lod, w32, h32);
    let uv = spec_vertex_uvs(f, w, h);
    let v = spec_vertices_packed(f, xyz, w, h, lod);
    assert(forall|k: int| 0 <= k < 4 ==> v[k] == spec_vertex_info(pos[k] as u32, uv[k].0, uv[k].1));
    let d = spec_render_corners(f, xs, ys, zs, ws, hs);
    lemma_vertex_at(pos[0], d[0].0, d[0].1, d[0].2, uv[0].0, uv[0].1);
    lemma_vertex_at(pos[1], d[1].0, d[1].1, d[1].2, uv[1].0, uv[1].1);
    lemma_vertex_at(pos[2], d[2].0, d[2].1, d[2].2, uv[2].0, uv[2].1);
    lemma_vertex_at(pos[3], d[3].0, d[3].1, d[3].2, uv[3].0, uv[3].1);
    assert forall|k: int| 0 <= k < 4 implies spec_vertex_position(#[trigger] v[k]) == d[k] && 0 <= pos[k] < 0x40000 by {
        if k == 0 {
        } else if k == 1 {
        } else if k == 2 {
        } else {
        }
    }
}

/// The render triangles of a packed quad face outward. Taking the vertices
/// of `vertices_packed` in the order of the index buffer (the triangles
/// `(2, 0, 1)` and `(1, 3, 2)`), each triangle's cross product, computed on
/// the vertices' grid positions, is the quad's scaled area times the face's
/// outward normal. Stated for quads whose scaled cells stay in the grid.
#[verifier::spinoff_prover]
#[verifier::rlimit(60)]
pub proof fn lemma_vertices_packed_wind_outward(f: Face, x: u32, y: u32, z: u32, w: u32, h: u32, lod: u32)
    requires
        x < 64,
        y < 64,
        z < 64,
        render_quad_in_grid(f, x * lod, y * lod, z * lod, w * lod, h * lod),
    ensures
        vertices_packed_defined(f, spec_packed_xyz(x, y, z), w, h, lod),
        ({
            let v = spec_vertices_packed(f, spec_packed_xyz(x, y, z), w, h, lod);
            let n = spec_normal(f);
            let area = (w * lod) * (h * lod);
            &&& spec_triangle_cross(
                spec_vertex_position(v[spec_index_corner(0)]),
                spec_vertex_position(v[spec_index_corner(1)]),
                spec_vertex_position(v[spec_index_corner(2)]),
            ) == (area * n.0, area * n.1, area * n.2)
            &&& spec_triangle_cross(
                spec_vertex_position(v[spec_index_corner(3)]),
                spec_vertex_position(v[spec_index_corner(4)]),
                spec_vertex_position(v[spec_index_corner(5)]),
            ) == (area * n.0, area * n.1, area * n.2)
        }),
{
    lemma_render_positions(f, x, y, z, w, h, lod);
    let v = spec_vertices_packed(f, spec_packed_xyz(x, y, z), w, h, lod);
    let xs = x * lod;
    let ys = y * lod;
    let zs = z * lod;
    let ws = w * lod;
    let hs = h * lod;
    let d = spec_render_corners(f, xs, ys, zs, ws, hs);
    assert(spec_vertex_position(v[0]) == d[0]);
    assert(spec_vertex_position(v[1]) == d[1]);
    assert(spec_vertex_position(v[2]) == d[2]);
    assert(spec_vertex_position(v[3]) == d[3]);
    let n = spec_normal(f);
    let area = ws * hs;
    assert(spec_triangle_cross(d[2], d[0], d[1]) == (area * n.0, area * n.1, area * n.2)
        && spec_triangle_cross(d[1], d[3], d[2]) == (area * n.0, area * n.1, area * n.2)) by (nonlinear_arith)
        requires
            n == spec_normal(f),
            area == ws * hs,
            d == spec_render_corners(f, xs, ys, zs, ws, hs),
    {
        match f {
            Face::Left => {}
            Face::Down => {}
            Face::Back => {}
            Face::Right => {}
            Face::Up => {}
            Face::Front => {}
        }
    }
}

/// Grid directions along which a face's texture coordinates `u` and `v`
/// grow. Both lie in the face's plane and are perpendicular to each other.
pub open spec fn spec_texture_axes(f: Face) -> ((int, int, int), (int, int, int)) {
    match f {
        Face::Left => ((0, 0, -1), (0, -1, 0)),
        Face::Down => ((-1, 0, 0), (0, 0, 1)),
        Face::Back => ((-1, 0, 0), (0, -1, 0)),
        Face::Right => ((0, 0, 1), (0, -1, 0)),
        Face::Up => ((1, 0, 0), (0, 0, 1)),
        Face::Front => ((1, 0, 0), (0, -1, 0)),
    }
}

/// Going from vertex `l` to vertex `k` of the packed quad `v`, the change of
/// each texture coordinate times `lod` is the distance moved along that
/// coordinate's texture axis.
pub open spec fn texture_step_follows(f: Face, v: Seq<u32>, lod: u32, k: int, l: int) -> bool {
    let (ua, va) = spec_texture_axes(f);
    let pk = spec_vertex_position(v[k]);
    let pl = spec_vertex_position(v[l]);
    let tk = spec_vertex_uv(v[k]);
    let tl = spec_vertex_uv(v[l]);
    &&& (tk.0 - tl.0) * lod == ua.0 * (pk.0 - pl.0) + ua.1 * (pk.1 - pl.1) + ua.2 * (pk.2 - pl.2)
    &&& (tk.1 - tl.1) * lod == va.0 * (pk.0 - pl.0) + va.1 * (pk.1 - pl.1) + va.2 * (pk.2 - pl.2)
}

/// The texture is laid on a packed quad without turning or stretching it:
/// between any two of its vertices, the change of `u` (and of `v`), times
/// the level of detail, is the distance moved along the face's `u` (and `v`)
/// texture axis, read from the vertices' grid positions. The two axes lie in
/// the face's plane and are perpendicular. Stated for quads whose scaled
/// cells stay in the grid.
#[verifier::spinoff_prover]
#[verifier::rlimit(60)]
pub proof fn lemma_vertices_packed_texture_follows_position(f: Face, x: u32, y: u32, z: u32, w: u32, h: u32, lod: u32)
    requires
        x < 64,
        y < 64,
        z < 64,
        render_quad_in_grid(f, x * lod, y * lod, z * lod, w * lod, h * lod),
    ensures
        ({
            let (ua, va) = spec_texture_axes(f);
            let n = spec_normal(f);
            &&& ua.0 * n.0 + ua.1 * n.1 + ua.2 * n.2 == 0
            &&& va.0 * n.0 + va.1 * n.1 + va.2 * n.2 == 0
            &&& ua.0 * va.0 + ua.1 * va.1 + ua.2 * va.2 == 0
        }),
        forall|k: int, l: int| 0 <= k < 4 && 0 <= l < 4 ==> #[trigger] texture_step_follows(
            f,
            spec_vertices_packed(f, spec_packed_xyz(x, y, z), w, h, lod),
            lod,
            k,
            l,
        ),
{
    lemma_render_positions(f, x, y, z, w, h, lod);
    let v = spec_vertices_packed(f, spec_packed_xyz(x, y, z), w, h, lod);
    let xs = x * lod;
    let ys = y * lod;
    let zs = z * lod;
    let ws = w * lod;
    let hs = h * lod;
    let d = spec_render_corners(f, xs, ys, zs, ws, hs);
    let uv = spec_vertex_uvs(f, w, h);
    let (ua, va) = spec_texture_axes(f);
    let t = Seq::new(4, |k: int| spec_vertex_uv(v[k]));
    let n = spec_normal(f);
    assert(ua.0 * n.0 + ua.1 * n.1 + ua.2 * n.2 == 0 && va.0 * n.0 + va.1 * n.1 + va.2 * n.2 == 0
        && ua.0 * va.0 + ua.1 * va.1 + ua.2 * va.2 == 0) by (nonlinear_arith)
        requires
            (ua, va) == spec_texture_axes(f),
            n == spec_normal(f),
    {
        match f {
            Face::Left => {}
            Face::Down => {}
            Face::Back => {}
            Face::Right => {}
            Face::Up => {}
            Face::Front => {}
        }
    }
    if lod == 0 {
        assert(ws == 0 && hs == 0);
        assert forall|k: int, l: int| 0 <= k < 4 && 0 <= l < 4 implies #[trigger] texture_step_follows(f, v, lod, k, l) by {
            assert(spec_vertex_position(v[k]) == d[k]);
            assert(spec_vertex_position(v[l]) == d[l]);
            assert(d[k] == d[l]) by {
                match f {
                    Face::Left => {}
                    Face::Down => {}
                    Face::Back => {}
                    Face::Right => {}
                    Face::Up => {}
                    Face::Front => {}
                }
            }
        }
    } else {
        assert(w <= ws && h <= hs) by (nonlinear_arith)
            requires
                lod >= 1,
                ws == w * lod,
                hs == h * lod,
        ;
        assert forall|k: int| 0 <= k < 4 implies #[trigger] t[k] == uv[k] by {
            crate::face::lemma_vertex_info_uv(
                spec_packed_positions(f, spec_packed_xyz(x, y, z) * lod, (w * lod) as u32, (h * lod) as u32)[k] as u32,
                uv[k].0,
                uv[k].1,
            );
        }
        assert forall|k: int, l: int| 0 <= k < 4 && 0 <= l < 4 implies #[trigger] texture_step_follows(f, v, lod, k, l) by {
            assert(spec_vertex_position(v[k]) == d[k]);
            assert(spec_vertex_position(v[l]) == d[l]);
            assert(t[k] == uv[k] && t[l] == uv[l]);
            let pk = d[k];
            let pl = d[l];
            let tk = uv[k];
            let tl = uv[l];
            assert((tk.0 - tl.0) * lod == ua.0 * (pk.0 - pl.0) + ua.1 * (pk.1 - pl.1) + ua.2 * (pk.2 - pl.2)
                && (tk.1 - tl.1) * lod == va.0 * (pk.0 - pl.0) + va.1 * (pk.1 - pl.1) + va.2 * (pk.2 - pl.2))
                by (nonlinear_arith)
                requires
                    0 <= k < 4,
                    0 <= l < 4,
                    d == spec_render_corners(f, xs, ys, zs, ws, hs),
                    uv == spec_vertex_uvs(f, w, h),
                    (ua, va) == spec_texture_axes(f),
                    ws == w * lod,
                    hs == h * lod,
                    pk == d[k],
                    pl == d[l],
                    tk == uv[k],
                    tl == uv[l],
            {
                match f {
                    Face::Left => {}
                    Face::Down => {}
                    Face::Back => {}
                    Face::Right => {}
                    Face::Up => {}
                    Face::Front => {}
                }
            }
        }
    }
}

/// Info word shared by the four vertices of a quad.
pub open spec fn spec_quad_info(color: u32, layer: u32, face_index: u32) -> u32 {
    (color << 15u32) | (layer << 3u32) | face_index
}

/// Vertex data of the quads of face group `fi`: four vertices per quad, in
/// quad order.
pub open spec fn spec_face_vertex_data<B>(
    fi: int,
    quads: Seq<QuadData<B>>,
    colors: Seq<u32>,
    layers: Seq<u32>,
    lod: u32,
) -> Seq<[u32; 2]> {
    Seq::new(
        (4 * quads.len()) as nat,
        |j: int| {
            let q = quads[j / 4];
            [
                spec_vertices_packed(spec_face_from_index(fi), q.packed_xyz, q.width as u32, q.height as u32, lod)[j % 4],
                spec_quad_info(colors[j / 4], layers[j / 4], fi as u32),
            ]
        },
    )
}

/// Every quad of the group can be packed at this level of detail.
pub open spec fn face_quads_packable<B>(fi: int, quads: Seq<QuadData<B>>, lod: u32) -> bool {
    forall|i: int| 0 <= i < quads.len() ==> vertices_packed_defined(
        spec_face_from_index(fi),
        (#[trigger] quads[i]).packed_xyz,
        quads[i].width as u32,
        quads[i].height as u32,
        lod,
    )
}

fn quad_info(color: u32, layer: u32, face_index: u32) -> (r: u32)
    ensures
        r == spec_quad_info(color, layer, face_index),
{
    (color << 15u32) | (layer << 3u32) | face_index
}

/// Vertex data and indices of the render mesh of face group `fi` (mesher
/// order), given each quad's color and texture layer, at level of detail
/// `lod`.
pub fn face_mesh_data<B>(
    fi: usize,
    quads: &Vec<QuadData<B>>,
    colors: &Vec<u32>,
    layers: &Vec<u32>,
    lod: u32,
) -> (r: (Vec<[u32; 2]>, Vec<u32>))
    requires
        fi < 6,
        colors@.len() == quads@.len(),
        layers@.len() == quads@.len(),
        quads@.len() <= 0x4000_0000,
        6 * quads@.len() <= usize::MAX,
        face_quads_packable(fi as int, quads@, lod),
    ensures
        r.0@ == spec_face_vertex_data(fi as int, quads@, colors@, layers@, lod),
        r.1@ == spec_quad_indices(quads@.len() as int),
{
    let face = Face::from_usize(fi);
    let ghost target = spec_face_vertex_data(fi as int, quads@, colors@, layers@, lod);
    let mut data: Vec<[u32; 2]> = Vec::new();
    let mut i: usize = 0;
    while i < quads.len()
        invariant
            fi < 6,
            face == spec_face_from_index(fi as int),
            colors@.len() == quads@.len(),
            layers@.len() == quads@.len(),
            quads@.len() <= 0x4000_0000,
            face_quads_packable(fi as int, quads@, lod),
            target == spec_face_vertex_data(fi as int, quads@, colors@, layers@, lod),
            i <= quads@.len(),
            data@.len() == 4 * i,
            forall|j: int| 0 <= j < 4 * i ==> #[trigger] data@[j] == target[j],
        decreases quads@.len() - i,
    {
        let q = &quads[i];
        assert(vertices_packed_defined(face, q.packed_xyz, q.width as u32, q.height as u32, lod));
        let v = face.vertices_packed(q.packed_xyz, q.width as u32, q.height as u32, lod);
        let info = quad_info(colors[i], layers[i], fi as u32);
        let ghost before = data@;
        data.push([v[0], info]);
        data.push([v[1], info]);
        data.push([v[2], info]);
        data.push([v[3], info]);
        proof {
            assert forall|j: int| 0 <= j < 4 * (i + 1) implies #[trigger] data@[j] == target[j] by {
                if j >= 4 * i {
                    let k = j - 4 * i;
                    vstd::arithmetic::div_mod::lemma_fundamental_div_mod_converse(j, 4, i as int, k);
                    assert(data@[j] == [v[k], info]);
                } else {
                    assert(data@[j] == before[j]);
                }
            }
        }
        i = i + 1;
    }
    assert(data@ =~= target);
    let indices = quad_indices(quads.len());
    (data, indices)
}

} // verus!
