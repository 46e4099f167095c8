use vstd::prelude::*;

use binary_greedy_meshing as bgm;

use crate::chunk::{Chunk, CHUNKP_S2, CHUNKP_S3, CHUNK_S1, linearize, spec_linearize};
use crate::face::{Face, spec_face_from_index, spec_quad_to_block, spec_quad_corners, spec_triangle_indices};
use crate::lod::{spec_voxel_data_lod, voxel_data_lod};

verus! {

// ---------------------------------------------------------------------------
// Greedy mesher output
// ---------------------------------------------------------------------------

/// The greedy mesher's quads for a padded voxel grid and its opacity and
/// transparency masks: six groups (Up, Down, Right, Left, Front, Back) of
/// packed quads `voxel_id << 32 | h << 24 | w << 18 | z << 12 | y << 6 | x`.
pub uninterp spec fn spec_greedy_mesh(voxels: Seq<u16>, opaque_mask: Seq<u64>, trans_mask: Seq<u64>) -> Seq<Seq<u64>>;

/// Most quads the mesher emits for one face of a 62-wide chunk: one per set
/// bit of its 62 x 62 face masks of 62 bits.
pub const MAX_QUADS_PER_FACE: usize = 238328;

/// What the mesher's source gives every quad it emits for a 62-wide chunk:
/// each position coordinate is at most 62 (a layer, row or column index of
/// the chunk, or one past it), and the voxel id is read from the voxel grid.
pub open spec fn mesher_quad_bounded(q: u64, voxels: Seq<u16>) -> bool {
    &&& spec_quad_x(q) <= 62
    &&& spec_quad_y(q) <= 62
    &&& spec_quad_z(q) <= 62
    &&& exists|i: int| 0 <= i < voxels.len() && voxels[i] as u64 == spec_quad_voxel_id(q)
}

/// Runs `binary_greedy_meshing`'s `Mesher::fast_mesh` on a padded 64^3 grid
/// and returns its six quad groups as raw words. The contract claims that
/// the groups are the named mesher result for these inputs; that there are
/// six of them (the crate keeps its output in a `[Vec<Quad>; 6]`); and what
/// `face_merging` shows of each quad it packs: coordinates drawn from loop
/// indices below 62 (or one past them, at most 62), a voxel id read from
/// `voxels`, and at most one quad per set face-mask bit. The mesher packs
/// each quad with `voxel_id << 32` on `usize`, so it is only called on
/// 64-bit targets: on a 32-bit word that shift overflows.
#[verifier::external_body]
fn greedy_mesh(voxels: &Vec<u16>, opaque_mask: &Vec<u64>, trans_mask: &Vec<u64>) -> (r: Vec<Vec<u64>>)
    requires
        usize::BITS == 64,
        voxels@.len() == CHUNKP_S3,
        opaque_mask@.len() == CHUNKP_S2,
        trans_mask@.len() == CHUNKP_S2,
    ensures
        r@.len() == 6,
        r.deep_view() == spec_greedy_mesh(voxels@, opaque_mask@, trans_mask@),
        forall|g: int| 0 <= g < 6 ==> #[trigger] r.deep_view()[g].len() <= MAX_QUADS_PER_FACE,
        forall|g: int, j: int| 0 <= g < 6 && 0 <= j < r.deep_view()[g].len()
            ==> mesher_quad_bounded(#[trigger] r.deep_view()[g][j], voxels@),
{
    let mut mesher = bgm::Mesher::<62>::new();
    mesher.fast_mesh(voxels, opaque_mask, trans_mask);
    mesher.quads.iter().map(|group| group.iter().map(|quad| quad.0).collect()).collect()
}

/// Packed `x | y << 6 | z << 12` position bits of a quad word.
pub const MASK_XYZ: u64 = 0x3ffff;

pub open spec fn spec_quad_x(q: u64) -> u64 {
    q & 63
}

pub open spec fn spec_quad_y(q: u64) -> u64 {
    (q >> 6u64) & 63
}

pub open spec fn spec_quad_z(q: u64) -> u64 {
    (q >> 12u64) & 63
}

pub open spec fn spec_quad_width(q: u64) -> u64 {
    (q >> 18u64) & 63
}

pub open spec fn spec_quad_height(q: u64) -> u64 {
    (q >> 24u64) & 63
}

pub open spec fn spec_quad_voxel_id(q: u64) -> u64 {
    q >> 32u64
}

// ---------------------------------------------------------------------------
// Opacity masks
// ---------------------------------------------------------------------------

/// Bit `b` of a mask word.
pub open spec fn spec_mask_bit(m: u64, b: u64) -> bool {
    (m >> b) & 1 == 1
}

/// `m` has one word per column of 64 voxels, whose bit `b` is set exactly
/// when voxel `64 * column + b` is not air and its transparency flag is `want`.
pub open spec fn is_voxel_mask(m: Seq<u64>, voxels: Seq<u16>, transparent: Seq<bool>, want: bool) -> bool {
    &&& m.len() == CHUNKP_S2
    &&& forall|c: int, b: u64| 0 <= c < CHUNKP_S2 && b < 64 ==> #[trigger] spec_mask_bit(m[c], b) == (
        voxels[c * 64 + b] != 0 && transparent[voxels[c * 64 + b] as int] == want)
}

proof fn lemma_set_bit(m: u64, k: u64, b: u64)
    requires
        k < 64,
        b < 64,
    ensures
        spec_mask_bit(m | (1u64 << k), b) == (b == k || spec_mask_bit(m, b)),
{
    assert(((m | (1u64 << k)) >> b) & 1 == 1 <==> (b == k || (m >> b) & 1 == 1)) by (bit_vector)
        requires
            k < 64,
            b < 64,
    ;
}

proof fn lemma_zero_bits(b: u64)
    ensures
        !spec_mask_bit(0, b),
{
    assert((0u64 >> b) & 1 != 1) by (bit_vector);
}

/// Opacity and transparency masks of a padded voxel grid (one bit per voxel,
/// one word per column), given the transparency flag of each palette entry.
fn voxel_masks(voxels: &Vec<u16>, transparent: &Vec<bool>) -> (r: (Vec<u64>, Vec<u64>))
    requires
        voxels@.len() == CHUNKP_S3,
        forall|i: int| 0 <= i < CHUNKP_S3 ==> (#[trigger] voxels@[i]) < transparent@.len(),
    ensures
        is_voxel_mask(r.0@, voxels@, transparent@, false),
        is_voxel_mask(r.1@, voxels@, transparent@, true),
{
    let mut opaque_mask: Vec<u64> = Vec::new();
    let mut trans_mask: Vec<u64> = Vec::new();
    let mut c: usize = 0;
    while c < CHUNKP_S2
        invariant
            c <= CHUNKP_S2,
            opaque_mask@ == Seq::new(c as nat, |j: int| 0u64),
            trans_mask@ == Seq::new(c as nat, |j: int| 0u64),
        decreases CHUNKP_S2 - c,
    {
        opaque_mask.push(0);
        trans_mask.push(0);
        c = c + 1;
        assert(opaque_mask@ =~= Seq::new(c as nat, |j: int| 0u64));
        assert(trans_mask@ =~= Seq::new(c as nat, |j: int| 0u64));
    }
    proof {
        assert forall|c: int, b: u64| 0 <= c < CHUNKP_S2 && b < 64 implies !#[trigger] spec_mask_bit(opaque_mask@[c], b)
            && !spec_mask_bit(trans_mask@[c], b) by {
            lemma_zero_bits(b);
        }
    }
    let mut i: usize = 0;
    while i < CHUNKP_S3
        invariant
            i <= CHUNKP_S3,
            voxels@.len() == CHUNKP_S3,
            forall|k: int| 0 <= k < CHUNKP_S3 ==> (#[trigger] voxels@[k]) < transparent@.len(),
            opaque_mask@.len() == CHUNKP_S2,
            trans_mask@.len() == CHUNKP_S2,
            forall|c: int, b: u64| 0 <= c < CHUNKP_S2 && b < 64 ==> #[trigger] spec_mask_bit(opaque_mask@[c], b) == (
                c * 64 + b < i && voxels@[c * 64 + b] != 0 && !transparent@[voxels@[c * 64 + b] as int]),
            forall|c: int, b: u64| 0 <= c < CHUNKP_S2 && b < 64 ==> #[trigger] spec_mask_bit(trans_mask@[c], b) == (
                c * 64 + b < i && voxels@[c * 64 + b] != 0 && transparent@[voxels@[c * 64 + b] as int]),
        decreases CHUNKP_S3 - i,
    {
        let voxel = voxels[i];
        let col = i / 64;
        let bit = i % 64;
        proof {
            vstd::arithmetic::div_mod::lemma_fundamental_div_mod(i as int, 64);
            vstd::arithmetic::div_mod::lemma_div_is_ordered(i as int, CHUNKP_S3 as int, 64);
        }
        let ghost om = opaque_mask@;
        let ghost tm = trans_mask@;
        if voxel != 0 {
            if transparent[voxel as usize] {
                let w = trans_mask[col] | (1u64 << (bit as u64));
                trans_mask.set(col, w);
            } else {
                let w = opaque_mask[col] | (1u64 << (bit as u64));
                opaque_mask.set(col, w);
            }
        }
        proof {
            assert forall|c: int, b: u64| 0 <= c < CHUNKP_S2 && b < 64 implies #[trigger] spec_mask_bit(opaque_mask@[c], b) == (
                c * 64 + b < i + 1 && voxels@[c * 64 + b] != 0 && !transparent@[voxels@[c * 64 + b] as int]) by {
                if c == col as int {
                    lemma_set_bit(om[c], bit as u64, b);
                    if b != bit as u64 {
                        assert(c * 64 + b != i);
                    }
                } else {
                    assert(c * 64 + b != i) by {
                        if c * 64 + b == i {
                            vstd::arithmetic::div_mod::lemma_fundamental_div_mod_converse(i as int, 64, c, b as int);
                        }
                    }
                }
            }
            assert forall|c: int, b: u64| 0 <= c < CHUNKP_S2 && b < 64 implies #[trigger] spec_mask_bit(trans_mask@[c], b) == (
                c * 64 + b < i + 1 && voxels@[c * 64 + b] != 0 && transparent@[voxels@[c * 64 + b] as int]) by {
                if c == col as int {
                    lemma_set_bit(tm[c], bit as u64, b);
                    if b != bit as u64 {
                        assert(c * 64 + b != i);
                    }
                } else {
                    assert(c * 64 + b != i) by {
                        if c * 64 + b == i {
                            vstd::arithmetic::div_mod::lemma_fundamental_div_mod_converse(i as int, 64, c, b as int);
                        }
                    }
                }
            }
        }
        i = i + 1;
    }
    (opaque_mask, trans_mask)
}

// ---------------------------------------------------------------------------
// Quads
// ---------------------------------------------------------------------------

/// One greedy-meshed quad of a chunk face.
#[derive(Debug, Clone, Copy)]
pub struct QuadData<B> {
    /// Packed position: 6 bits each for x, y and z (`z << 12 | y << 6 | x`).
    pub packed_xyz: u32,
    pub width: u8,
    pub height: u8,
    /// The block the face belongs to.
    pub block: B,
    /// The block on the other side of the face.
    pub neighbor_block: B,
}

impl<B> QuadData<B> {
    pub fn x(&self) -> (r: u8)
        ensures
            r as u32 == self.packed_xyz & 0x3f,
            r < 64,
    {
        let p = self.packed_xyz;
        let v = p & 0x3f;
        assert(v < 64) by (bit_vector)
            requires
                v == p & 0x3f,
        ;
        v as u8
    }

    pub fn y(&self) -> (r: u8)
        ensures
            r as u32 == (self.packed_xyz >> 6u32) & 0x3f,
            r < 64,
    {
        let p = self.packed_xyz;
        let v = (p >> 6u32) & 0x3f;
        assert(v < 64) by (bit_vector)
            requires
                v == (p >> 6u32) & 0x3f,
        ;
        v as u8
    }

    pub fn z(&self) -> (r: u8)
        ensures
            r as u32 == (self.packed_xyz >> 12u32) & 0x3f,
            r < 64,
    {
        let p = self.packed_xyz;
        let v = (p >> 12u32) & 0x3f;
        assert(v < 64) by (bit_vector)
            requires
                v == (p >> 12u32) & 0x3f,
        ;
        v as u8
    }
}

/// The quads of a chunk, one group per face in mesher order
/// (Up, Down, Right, Left, Front, Back).
pub struct ChunkQuads<B> {
    pub faces: [Vec<QuadData<B>>; 6],
}

/// Number of quads in the first `k` groups.
pub open spec fn spec_quad_count<B>(faces: Seq<Seq<QuadData<B>>>, k: int) -> int
    decreases k,
{
    if k <= 0 {
        0
    } else {
        spec_quad_count(faces, k - 1) + faces[k - 1].len()
    }
}

impl<B> ChunkQuads<B> {
    pub open spec fn view(&self) -> Seq<Seq<QuadData<B>>> {
        Seq::new(6, |i: int| self.faces[i]@)
    }

    /// No face has a quad.
    pub fn is_empty(&self) -> (r: bool)
        ensures
            r == forall|i: int| 0 <= i < 6 ==> #[trigger] self@[i].len() == 0,
    {
        let mut i: usize = 0;
        while i < 6
            invariant
                i <= 6,
                forall|j: int| 0 <= j < i ==> #[trigger] self@[j].len() == 0,
            decreases 6 - i,
        {
            if self.faces[i].len() != 0 {
                assert(self@[i as int].len() != 0);
                return false;
            }
            i = i + 1;
        }
        true
    }

    /// Number of quads over all faces.
    pub fn total_quads(&self) -> (r: usize)
        requires
            spec_quad_count(self@, 6) <= usize::MAX,
        ensures
            r == spec_quad_count(self@, 6),
    {
        let mut total: usize = 0;
        let mut i: usize = 0;
        while i < 6
            invariant
                i <= 6,
                total == spec_quad_count(self@, i as int),
                spec_quad_count(self@, 6) <= usize::MAX,
            decreases 6 - i,
        {
            proof {
                lemma_quad_count_monotone(self@, i + 1, 6);
            }
            total = total + self.faces[i].len();
            i = i + 1;
        }
        total
    }
}

proof fn lemma_quad_count_monotone<B>(faces: Seq<Seq<QuadData<B>>>, j: int, k: int)
    requires
        0 <= j <= k,
    ensures
        spec_quad_count(faces, j) <= spec_quad_count(faces, k),
    decreases k - j,
{
    if j < k {
        lemma_quad_count_monotone(faces, j, k - 1);
    }
}

/// A chunk's quads are empty exactly when their total count is zero.
pub proof fn lemma_empty_iff_no_quads<B>(q: ChunkQuads<B>)
    ensures
        (forall|i: int| 0 <= i < 6 ==> #[trigger] q@[i].len() == 0) <==> spec_quad_count(q@, 6) == 0,
{
    let s = q@;
    assert(spec_quad_count(s, 6) == s[0].len() + s[1].len() + s[2].len() + s[3].len() + s[4].len() + s[5].len()) by {
        reveal_with_fuel(spec_quad_count, 7);
    }
}

/// Padded coordinates of the voxel on the far side of a quad's face: the
/// quad's position moved by the face's `quad_to_block` offset, plus padding.
pub open spec fn spec_neighbor_coords(f: Face, q: u64) -> (int, int, int) {
    let o = spec_quad_to_block(f);
    (o.0 + spec_quad_x(q) + 1, o.1 + spec_quad_y(q) + 1, o.2 + spec_quad_z(q) + 1)
}

/// The quad names a palette entry and its neighbor voxel lies in the grid.
pub open spec fn quad_in_range(f: Face, q: u64, palette_len: int) -> bool {
    let n = spec_neighbor_coords(f, q);
    &&& spec_quad_voxel_id(q) < palette_len
    &&& 0 <= n.0 < 64 && 0 <= n.1 < 64 && 0 <= n.2 < 64
}

/// Every quad of the mesher output is in range.
pub open spec fn mesh_in_range(mesh: Seq<Seq<u64>>, palette_len: int) -> bool {
    &&& mesh.len() == 6
    &&& forall|fi: int, j: int| 0 <= fi < 6 && 0 <= j < mesh[fi].len()
        ==> quad_in_range(spec_face_from_index(fi), #[trigger] mesh[fi][j], palette_len)
}

/// The quad data of one mesher quad: its position and size bits, its block,
/// and the block of the voxel across the face.
pub open spec fn spec_quad_data<B>(f: Face, q: u64, voxels: Seq<u16>, palette: Seq<B>) -> QuadData<B> {
    let n = spec_neighbor_coords(f, q);
    QuadData {
        packed_xyz: (q & MASK_XYZ) as u32,
        width: spec_quad_width(q) as u8,
        height: spec_quad_height(q) as u8,
        block: palette[spec_quad_voxel_id(q) as int],
        neighbor_block: palette[voxels[spec_linearize(n.0, n.1, n.2)] as int],
    }
}

/// An extracted quad keeps the mesher word's position, width and height
/// fields where the mesher put them: its width is bits 18..24 of the word and
/// its height bits 24..30, so packing the quad back as
/// `xyz | width << 18 | height << 24` gives the word's low 30 bits.
pub proof fn lemma_quad_data_fields<B>(f: Face, q: u64, voxels: Seq<u16>, palette: Seq<B>)
    ensures
        ({
            let d = spec_quad_data(f, q, voxels, palette);
            &&& d.width as u64 == (q >> 18u64) & 63
            &&& d.height as u64 == (q >> 24u64) & 63
            &&& (d.packed_xyz as u64) | ((d.width as u64) << 18u64) | ((d.height as u64) << 24u64) == q & 0x3fff_ffff
        }),
{
    let d = spec_quad_data(f, q, voxels, palette);
    let p = d.packed_xyz;
    let w = d.width;
    let h = d.height;
    assert(p == (q & 0x3ffff) as u32);
    assert(w == ((q >> 18u64) & 63) as u8);
    assert(h == ((q >> 24u64) & 63) as u8);
    assert(w as u64 == (q >> 18u64) & 63 && h as u64 == (q >> 24u64) & 63
        && (p as u64) | ((w as u64) << 18u64) | ((h as u64) << 24u64) == q & 0x3fff_ffff) by (bit_vector)
        requires
            p == (q & 0x3ffff) as u32,
            w == ((q >> 18u64) & 63) as u8,
            h == ((q >> 24u64) & 63) as u8,
    ;
}

/// The chunk quads of a mesher output, face group by face group.
pub open spec fn spec_quads_from_mesh<B>(mesh: Seq<Seq<u64>>, voxels: Seq<u16>, palette: Seq<B>) -> Seq<Seq<QuadData<B>>> {
    Seq::new(
        6,
        |fi: int| mesh[fi].map_values(|q: u64| spec_quad_data(spec_face_from_index(fi), q, voxels, palette)),
    )
}

/// Mesher output within the bounds its source gives is in range for a
/// grid whose voxels all name palette entries.
proof fn lemma_bounded_mesh_in_range(mesh: Seq<Seq<u64>>, voxels: Seq<u16>, palette_len: int)
    requires
        mesh.len() == 6,
        forall|g: int, j: int| 0 <= g < 6 && 0 <= j < mesh[g].len() ==> mesher_quad_bounded(#[trigger] mesh[g][j], voxels),
        forall|i: int| 0 <= i < voxels.len() ==> (#[trigger] voxels[i]) < palette_len,
    ensures
        mesh_in_range(mesh, palette_len),
{
    assert forall|fi: int, j: int| 0 <= fi < 6 && 0 <= j < mesh[fi].len()
        implies quad_in_range(spec_face_from_index(fi), #[trigger] mesh[fi][j], palette_len) by {
        let q = mesh[fi][j];
        assert(mesher_quad_bounded(q, voxels));
        let i = choose|i: int| 0 <= i < voxels.len() && voxels[i] as u64 == spec_quad_voxel_id(q);
        assert(voxels[i] < palette_len);
    }
}

/// The quad data of the mesher quads of one face.
fn quads_for_face<B: Copy>(fi: usize, group: &Vec<u64>, voxels: &Vec<u16>, palette: &Vec<B>) -> (r: Vec<QuadData<B>>)
    requires
        fi < 6,
        voxels@.len() == crate::chunk::CHUNKP_S3,
        forall|i: int| 0 <= i < voxels@.len() ==> (#[trigger] voxels@[i]) < palette@.len(),
        forall|k: int| 0 <= k < group@.len() ==> quad_in_range(spec_face_from_index(fi as int), #[trigger] group@[k], palette@.len() as int),
    ensures
        r@ == group@.map_values(|q: u64| spec_quad_data(spec_face_from_index(fi as int), q, voxels@, palette@)),
{
    let face = Face::from_usize(fi);
    let offset = face.quad_to_block();
    let mut out: Vec<QuadData<B>> = Vec::new();
    let mut j: usize = 0;
    while j < group.len()
        invariant
            fi < 6,
            face == spec_face_from_index(fi as int),
            (offset[0] as int, offset[1] as int, offset[2] as int) == spec_quad_to_block(face),
            voxels@.len() == crate::chunk::CHUNKP_S3,
            forall|i: int| 0 <= i < voxels@.len() ==> (#[trigger] voxels@[i]) < palette@.len(),
            forall|k: int| 0 <= k < group@.len() ==> quad_in_range(face, #[trigger] group@[k], palette@.len() as int),
            j <= group@.len(),
            out@ == group@.take(j as int).map_values(|q: u64| spec_quad_data(face, q, voxels@, palette@)),
        decreases group@.len() - j,
    {
        let quad = group[j];
        assert(quad_in_range(face, group@[j as int], palette@.len() as int));
        let id: u64 = quad >> 32u64;
        assert(id == spec_quad_voxel_id(quad));
        let plen = palette.len();
        assert((id as int) < (plen as int));
        let voxel_i = id as usize;
        let x = quad & 63;
        let y = (quad >> 6u64) & 63;
        let z = (quad >> 12u64) & 63;
        proof {
            assert(quad & 63 < 64 && (quad >> 6u64) & 63 < 64 && (quad >> 12u64) & 63 < 64) by (bit_vector);
            assert((quad >> 18u64) & 63 < 64 && (quad >> 24u64) & 63 < 64) by (bit_vector);
            assert(quad & MASK_XYZ <= 0x3ffff) by (bit_vector);
        }
        let block = palette[voxel_i];
        let n = linearize(
            (offset[0] as i64 + x as i64 + 1) as usize,
            (offset[1] as i64 + y as i64 + 1) as usize,
            (offset[2] as i64 + z as i64 + 1) as usize,
        );
        let neighbor_block = palette[voxels[n] as usize];
        proof {
            let nc = spec_neighbor_coords(face, quad);
            assert(voxel_i as int == spec_quad_voxel_id(quad) as int);
            assert(n as int == spec_linearize(nc.0, nc.1, nc.2));
        }
        let qd = QuadData {
            packed_xyz: (quad & MASK_XYZ) as u32,
            width: ((quad >> 18u64) & 63) as u8,
            height: ((quad >> 24u64) & 63) as u8,
            block,
            neighbor_block,
        };
        assert(qd == spec_quad_data(face, quad, voxels@, palette@));
        out.push(qd);
        proof {
            assert(group@.take(j + 1) =~= group@.take(j as int).push(quad));
            assert(out@ =~= group@.take(j + 1).map_values(|q: u64| spec_quad_data(face, q, voxels@, palette@)));
        }
        j = j + 1;
    }
    assert(group@.take(group@.len() as int) =~= group@);
    out
}

/// Chunk quads of a mesher output whose quads are all in range.
pub fn quads_from_mesh<B: Copy>(mesh: &Vec<Vec<u64>>, voxels: &Vec<u16>, palette: &Vec<B>) -> (r: ChunkQuads<B>)
    requires
        voxels@.len() == crate::chunk::CHUNKP_S3,
        forall|i: int| 0 <= i < voxels@.len() ==> (#[trigger] voxels@[i]) < palette@.len(),
        mesh_in_range(mesh.deep_view(), palette@.len() as int),
    ensures
        r@ == spec_quads_from_mesh(mesh.deep_view(), voxels@, palette@),
{
    assert(mesh@.len() == 6);
    let ghost dv = mesh.deep_view();
    assert forall|fi: int| 0 <= fi < 6 implies #[trigger] dv[fi] == mesh@[fi]@ by {
        assert(dv[fi] =~= mesh@[fi]@);
    }
    assert forall|fi: int| 0 <= fi < 6 implies forall|k: int| 0 <= k < (#[trigger] mesh@[fi])@.len()
        ==> quad_in_range(spec_face_from_index(fi), #[trigger] mesh@[fi]@[k], palette@.len() as int) by {
        assert forall|k: int| 0 <= k < mesh@[fi]@.len() implies quad_in_range(spec_face_from_index(fi), #[trigger] mesh@[fi]@[k], palette@.len() as int) by {
            assert(dv[fi][k] == mesh@[fi]@[k]);
        }
    }
    let f0 = quads_for_face(0, &mesh[0], voxels, palette);
    let f1 = quads_for_face(1, &mesh[1], voxels, palette);
    let f2 = quads_for_face(2, &mesh[2], voxels, palette);
    let f3 = quads_for_face(3, &mesh[3], voxels, palette);
    let f4 = quads_for_face(4, &mesh[4], voxels, palette);
    let f5 = quads_for_face(5, &mesh[5], voxels, palette);
    let r = ChunkQuads { faces: [f0, f1, f2, f3, f4, f5] };
    assert(r@ =~= spec_quads_from_mesh(mesh.deep_view(), voxels@, palette@));
    r
}

// ---------------------------------------------------------------------------
// Extraction
// ---------------------------------------------------------------------------

/// `t` flags the transparent palette entries: entry 0 (air) is never
/// transparent, and another entry is transparent when `is_opaque` says it
/// is not opaque.
pub open spec fn transparency_of<B, F: Fn(&B) -> bool>(is_opaque: F, palette: Seq<B>, t: Seq<bool>) -> bool {
    &&& t.len() == palette.len()
    &&& !t[0]
    &&& forall|i: int| 0 < i < palette.len() ==> is_opaque.ensures((&palette[i],), !#[trigger] t[i])
}

/// Transparency flag of each palette entry.
pub fn transparency_flags<B, F: Fn(&B) -> bool>(palette: &Vec<B>, is_opaque: &F) -> (r: Vec<bool>)
    requires
        palette@.len() > 0,
        forall|i: int| 0 <= i < palette@.len() ==> is_opaque.requires((&palette@[i],)),
    ensures
        transparency_of(*is_opaque, palette@, r@),
{
    let mut flags: Vec<bool> = Vec::new();
    let mut i: usize = 0;
    while i < palette.len()
        invariant
            i <= palette@.len(),
            flags@.len() == i,
            palette@.len() > 0,
            forall|k: int| 0 <= k < palette@.len() ==> is_opaque.requires((&palette@[k],)),
            i > 0 ==> !flags@[0],
            forall|k: int| 0 < k < i ==> is_opaque.ensures((&palette@[k],), !#[trigger] flags@[k]),
        decreases palette@.len() - i,
    {
        if i == 0 {
            flags.push(false);
        } else {
            let opaque = is_opaque(&palette[i]);
            flags.push(!opaque);
        }
        i = i + 1;
    }
    flags
}

proof fn lemma_lod_voxels_in_palette<B>(chunk: &Chunk<B>, lod: int)
    requires
        chunk.wf(),
        lod >= 1,
    ensures
        spec_voxel_data_lod(chunk.data@, lod).len() == CHUNKP_S3,
        forall|i: int| 0 <= i < CHUNKP_S3 ==> (#[trigger] spec_voxel_data_lod(chunk.data@, lod)[i]) < chunk.palette@.len(),
{
    if lod != 1 {
        let data = chunk.data@;
        assert forall|i: int| 0 <= i < CHUNKP_S3 implies (#[trigger] spec_voxel_data_lod(chunk.data@, lod)[i]) < chunk.palette@.len() by {
            let c = crate::lod::spec_lod_cell(i);
            if crate::lod::cell_valid(c.0, lod) && crate::lod::cell_valid(c.1, lod) && crate::lod::cell_valid(c.2, lod) {
                let lo = (c.0 * lod, c.1 * lod, c.2 * lod);
                let hi = (crate::lod::min_int(c.0 * lod + lod, CHUNK_S1 as int), crate::lod::min_int(c.1 * lod + lod, CHUNK_S1 as int),
                    crate::lod::min_int(c.2 * lod + lod, CHUNK_S1 as int));
                if exists|p: (int, int, int)| crate::lod::is_first_solid(data, lo, hi, p) {
                    let p = choose|p: (int, int, int)| crate::lod::is_first_solid(data, lo, hi, p);
                    assert(0 <= crate::chunk::spec_pad_linearize(p.0, p.1, p.2) < CHUNKP_S3);
                }
            }
        }
    }
}

/// Greedy-meshes a chunk at level of detail `lod`: the voxels at that level
/// of detail are meshed with masks built from the blocks' opacity (air is
/// skipped; a non-opaque block is transparent), and each mesher quad gets its
/// block and the block across its face. For 64-bit targets, the only ones
/// the mesher packs its quads correctly on.
pub fn extract_quads<B: Copy, F: Fn(&B) -> bool>(chunk: &Chunk<B>, lod: usize, is_opaque: F) -> (r: ChunkQuads<B>)
    requires
        usize::BITS == 64,
        chunk.wf(),
        lod >= 1,
        forall|i: int| 0 <= i < chunk.palette@.len() ==> is_opaque.requires((&chunk.palette@[i],)),
    ensures
        exists|t: Seq<bool>, om: Seq<u64>, tm: Seq<u64>|
            #![trigger transparency_of(is_opaque, chunk.palette@, t), spec_greedy_mesh(spec_voxel_data_lod(chunk.data@, lod as int), om, tm)]
        {
            let v = spec_voxel_data_lod(chunk.data@, lod as int);
            let mesh = spec_greedy_mesh(v, om, tm);
            &&& transparency_of(is_opaque, chunk.palette@, t)
            &&& is_voxel_mask(om, v, t, false)
            &&& is_voxel_mask(tm, v, t, true)
            &&& r@ == spec_quads_from_mesh(mesh, v, chunk.palette@)
        },
        forall|g: int| 0 <= g < 6 ==> #[trigger] r@[g].len() <= MAX_QUADS_PER_FACE,
{
    let voxels = voxel_data_lod(chunk, lod);
    proof {
        lemma_lod_voxels_in_palette(chunk, lod as int);
    }
    let transparent = transparency_flags(&chunk.palette, &is_opaque);
    let (opaque_mask, trans_mask) = voxel_masks(&voxels, &transparent);
    let mesh = greedy_mesh(&voxels, &opaque_mask, &trans_mask);
    proof {
        lemma_bounded_mesh_in_range(mesh.deep_view(), voxels@, chunk.palette@.len() as int);
    }
    let q = quads_from_mesh(&mesh, &voxels, &chunk.palette);
    proof {
        let t = transparent@;
        let om = opaque_mask@;
        let tm = trans_mask@;
        assert(transparency_of(is_opaque, chunk.palette@, t));
        assert(spec_greedy_mesh(spec_voxel_data_lod(chunk.data@, lod as int), om, tm) == mesh.deep_view());
        assert forall|g: int| 0 <= g < 6 implies #[trigger] q@[g].len() <= MAX_QUADS_PER_FACE by {
            assert(q@[g].len() == mesh.deep_view()[g].len());
        }
    }
    q
}

// ---------------------------------------------------------------------------
// Collision trimesh
// ---------------------------------------------------------------------------

/// Every quad of the first `k` face groups, paired with its face.
pub open spec fn spec_face_quads<B>(faces: Seq<Seq<QuadData<B>>>, k: int) -> Seq<(Face, QuadData<B>)>
    decreases k,
{
    if k <= 0 {
        Seq::empty()
    } else {
        spec_face_quads(faces, k - 1) + faces[k - 1].map_values(|q: QuadData<B>| (spec_face_from_index(k - 1), q))
    }
}

/// Integer corners of a quad, from its packed position and size.
pub open spec fn spec_quad_data_corners<B>(f: Face, q: QuadData<B>) -> Seq<(int, int, int)> {
    spec_quad_corners(
        f,
        (q.packed_xyz & 0x3f) as int,
        ((q.packed_xyz >> 6u32) & 0x3f) as int,
        ((q.packed_xyz >> 12u32) & 0x3f) as int,
        q.width as int,
        q.height as int,
    )
}

/// Triangle mesh of the quads flagged `solid`, in order: four corners per
/// quad, and two triangles per quad over those corners.
pub open spec fn spec_trimesh<B>(pairs: Seq<(Face, QuadData<B>)>, solid: Seq<bool>) -> (Seq<(int, int, int)>, Seq<(int, int, int)>)
    decreases pairs.len(),
{
    if pairs.len() == 0 {
        (Seq::empty(), Seq::empty())
    } else {
        let prev = spec_trimesh(pairs.drop_last(), solid.drop_last());
        let p = pairs.last();
        if solid.last() {
            let b = prev.0.len() as int;
            let t = spec_triangle_indices(b);
            (
                prev.0 + spec_quad_data_corners(p.0, p.1),
                prev.1.push((t.0[0], t.0[1], t.0[2])).push((t.1[0], t.1[1], t.1[2])),
            )
        } else {
            prev
        }
    }
}

pub open spec fn spec_triple_view(v: Seq<[u32; 3]>) -> Seq<(int, int, int)> {
    v.map_values(|a: [u32; 3]| (a[0] as int, a[1] as int, a[2] as int))
}

proof fn lemma_face_quads_len<B>(faces: Seq<Seq<QuadData<B>>>, k: int)
    ensures
        spec_face_quads(faces, k).len() == spec_quad_count(faces, k),
    decreases k,
{
    if k > 0 {
        lemma_face_quads_len(faces, k - 1);
    }
}

proof fn lemma_trimesh_len<B>(pairs: Seq<(Face, QuadData<B>)>, solid: Seq<bool>)
    requires
        solid.len() == pairs.len(),
    ensures
        spec_trimesh(pairs, solid).0.len() <= 4 * pairs.len(),
        spec_trimesh(pairs, solid).0.len() % 4 == 0,
    decreases pairs.len(),
{
    if pairs.len() > 0 {
        lemma_trimesh_len(pairs.drop_last(), solid.drop_last());
    }
}

/// Every triangle of a quad trimesh refers to vertices of that mesh, and
/// there are two triangles for every four vertices.
pub proof fn lemma_trimesh_indices_in_range<B>(pairs: Seq<(Face, QuadData<B>)>, solid: Seq<bool>)
    requires
        solid.len() == pairs.len(),
    ensures
        ({
            let m = spec_trimesh(pairs, solid);
            &&& 2 * m.0.len() == 4 * m.1.len()
            &&& forall|i: int| 0 <= i < m.1.len() ==> {
                &&& 0 <= (#[trigger] m.1[i]).0 < m.0.len()
                &&& 0 <= m.1[i].1 < m.0.len()
                &&& 0 <= m.1[i].2 < m.0.len()
            }
        }),
    decreases pairs.len(),
{
    if pairs.len() > 0 {
        lemma_trimesh_indices_in_range(pairs.drop_last(), solid.drop_last());
        let prev = spec_trimesh(pairs.drop_last(), solid.drop_last());
        let m = spec_trimesh(pairs, solid);
        if solid.last() {
            let p = pairs.last();
            assert(spec_quad_data_corners(p.0, p.1).len() == 4);
            assert forall|i: int| 0 <= i < m.1.len() implies {
                &&& 0 <= (#[trigger] m.1[i]).0 < m.0.len()
                &&& 0 <= m.1[i].1 < m.0.len()
                &&& 0 <= m.1[i].2 < m.0.len()
            } by {
                if i < prev.1.len() {
                    assert(m.1[i] == prev.1[i]);
                }
            }
        }
    }
}

/// Triangle mesh of a chunk's solid quads (those whose block is not
/// traversable): vertices in chunk-local integer coordinates, and triangles
/// as triples of vertex indices wound to face outward.
pub fn quads_to_trimesh<B, F: Fn(&B) -> bool>(quads: &ChunkQuads<B>, is_traversable: F) -> (r: (Vec<[u32; 3]>, Vec<[u32; 3]>))
    requires
        4 * spec_quad_count(quads@, 6) <= u32::MAX,
        forall|i: int| 0 <= i < spec_face_quads(quads@, 6).len()
            ==> is_traversable.requires((&(#[trigger] spec_face_quads(quads@, 6)[i]).1.block,)),
    ensures
        exists|solid: Seq<bool>| #![trigger spec_trimesh(spec_face_quads(quads@, 6), solid)] {
            let all = spec_face_quads(quads@, 6);
            &&& solid.len() == all.len()
            &&& forall|i: int| 0 <= i < all.len() ==> is_traversable.ensures((&all[i].1.block,), !#[trigger] solid[i])
            &&& (spec_triple_view(r.0@), spec_triple_view(r.1@)) == spec_trimesh(all, solid)
        },
{
    let ghost all = spec_face_quads(quads@, 6);
    let mut vertices: Vec<[u32; 3]> = Vec::new();
    let mut indices: Vec<[u32; 3]> = Vec::new();
    let ghost mut solid: Seq<bool> = Seq::empty();
    proof {
        lemma_face_quads_len(quads@, 6);
        lemma_quad_count_monotone(quads@, 0, 6);
    }
    let mut fi: usize = 0;
    while fi < 6
        invariant
            fi <= 6,
            all == spec_face_quads(quads@, 6),
            all.len() == spec_quad_count(quads@, 6),
            4 * spec_quad_count(quads@, 6) <= u32::MAX,
            forall|i: int| 0 <= i < all.len() ==> is_traversable.requires((&(#[trigger] all[i]).1.block,)),
            solid.len() == spec_face_quads(quads@, fi as int).len(),
            forall|i: int| 0 <= i < solid.len() ==> is_traversable.ensures((&spec_face_quads(quads@, fi as int)[i].1.block,), !#[trigger] solid[i]),
            (spec_triple_view(vertices@), spec_triple_view(indices@)) == spec_trimesh(spec_face_quads(quads@, fi as int), solid),
        decreases 6 - fi,
    {
        let face = Face::from_usize(fi);
        let group = &quads.faces[fi];
        let ghost before = spec_face_quads(quads@, fi as int);
        let ghost tagged = group@.map_values(|q: QuadData<B>| (spec_face_from_index(fi as int), q));
        proof {
            lemma_face_quads_len(quads@, fi as int + 1);
            lemma_quad_count_monotone(quads@, fi as int + 1, 6);
            assert(spec_face_quads(quads@, fi as int + 1) == before + tagged);
        }
        let mut j: usize = 0;
        while j < group.len()
            invariant
                fi < 6,
                face == spec_face_from_index(fi as int),
                *group == quads.faces[fi as int],
                tagged == group@.map_values(|q: QuadData<B>| (spec_face_from_index(fi as int), q)),
                before == spec_face_quads(quads@, fi as int),
                spec_face_quads(quads@, fi as int + 1) == before + tagged,
                (before + tagged).len() <= spec_quad_count(quads@, 6),
                all == spec_face_quads(quads@, 6),
                all.len() == spec_quad_count(quads@, 6),
                4 * spec_quad_count(quads@, 6) <= u32::MAX,
                forall|i: int| 0 <= i < all.len() ==> is_traversable.requires((&(#[trigger] all[i]).1.block,)),
                j <= group@.len(),
                solid.len() == (before + tagged.take(j as int)).len(),
                forall|i: int| 0 <= i < solid.len() ==> is_traversable.ensures((&(before + tagged.take(j as int))[i].1.block,), !#[trigger] solid[i]),
                (spec_triple_view(vertices@), spec_triple_view(indices@)) == spec_trimesh(before + tagged.take(j as int), solid),
            decreases group@.len() - j,
        {
            let quad = &group[j];
            let ghost prefix = before + tagged.take(j as int);
            let ghost pair = (face, *quad);
            proof {
                assert(prefix.push(pair) =~= before + tagged.take(j + 1));
                lemma_face_quads_prefix(quads@, fi as int, before, tagged, j as int);
                assert(all[prefix.len() as int] == pair);
                lemma_trimesh_len(prefix, solid);
            }
            let traversable = is_traversable(&quad.block);
            if !traversable {
                let base = vertices.len() as u32;
                let corners = face.quad_corners(quad.x(), quad.y(), quad.z(), quad.width, quad.height);
                let ghost v0 = vertices@;
                let ghost i0 = indices@;
                vertices.push(corners[0]);
                vertices.push(corners[1]);
                vertices.push(corners[2]);
                vertices.push(corners[3]);
                let (t1, t2) = face.triangle_indices(base);
                indices.push(t1);
                indices.push(t2);
                proof {
                    let sv = spec_quad_data_corners(face, *quad);
                    assert(spec_triple_view(vertices@) =~= spec_triple_view(v0) + sv);
                    assert(spec_triple_view(indices@) =~= spec_triple_view(i0).push((t1[0] as int, t1[1] as int, t1[2] as int)).push((t2[0] as int, t2[1] as int, t2[2] as int)));
                }
            }
            proof {
                let new_solid = solid.push(!traversable);
                assert(new_solid.drop_last() =~= solid);
                assert((prefix.push(pair)).drop_last() =~= prefix);
                solid = new_solid;
            }
            j = j + 1;
        }
        proof {
            assert(tagged.take(group@.len() as int) =~= tagged);
        }
        fi = fi + 1;
    }
    assert(spec_trimesh(spec_face_quads(quads@, 6), solid) == (spec_triple_view(vertices@), spec_triple_view(indices@)));
    (vertices, indices)
}

proof fn lemma_face_quads_prefix<B>(faces: Seq<Seq<QuadData<B>>>, fi: int, before: Seq<(Face, QuadData<B>)>, tagged: Seq<(Face, QuadData<B>)>, j: int)
    requires
        0 <= fi < 6,
        before == spec_face_quads(faces, fi),
        spec_face_quads(faces, fi + 1) == before + tagged,
        0 <= j < tagged.len(),
    ensures
        spec_face_quads(faces, 6)[before.len() + j] == tagged[j],
        before.len() + j < spec_face_quads(faces, 6).len(),
    decreases 6 - fi,
{
    lemma_face_quads_extends(faces, fi + 1, 6);
    assert((before + tagged)[before.len() + j] == tagged[j]);
}

proof fn lemma_face_quads_extends<B>(faces: Seq<Seq<QuadData<B>>>, j: int, k: int)
    requires
        0 <= j <= k,
    ensures
        spec_face_quads(faces, j).len() <= spec_face_quads(faces, k).len(),
        forall|i: int| 0 <= i < spec_face_quads(faces, j).len() ==> spec_face_quads(faces, k)[i] == #[trigger] spec_face_quads(faces, j)[i],
    decreases k - j,
{
    if j < k {
        lemma_face_quads_extends(faces, j, k - 1);
    }
}

/// A quad trimesh has no vertex exactly when no quad is solid.
proof fn lemma_trimesh_empty_iff_no_solid<B>(pairs: Seq<(Face, QuadData<B>)>, solid: Seq<bool>)
    requires
        solid.len() == pairs.len(),
    ensures
        spec_trimesh(pairs, solid).0.len() == 0 <==> forall|i: int| 0 <= i < solid.len() ==> !#[trigger] solid[i],
    decreases pairs.len(),
{
    if pairs.len() > 0 {
        let pre = solid.drop_last();
        lemma_trimesh_empty_iff_no_solid(pairs.drop_last(), pre);
        let p = pairs.last();
        assert(spec_quad_data_corners(p.0, p.1).len() == 4);
        if forall|i: int| 0 <= i < solid.len() ==> !#[trigger] solid[i] {
            assert forall|i: int| 0 <= i < pre.len() implies !#[trigger] pre[i] by {
                assert(pre[i] == solid[i]);
            }
            assert(!solid[solid.len() - 1]);
        } else if !solid.last() {
            let k = choose|k: int| 0 <= k < solid.len() && #[trigger] solid[k];
            assert(k < pre.len() && pre[k]);
        }
    }
}

/// The chunk quads of at most `MAX_QUADS_PER_FACE` per face give vertex
/// indices that fit in 32 bits.
proof fn lemma_bounded_quads_fit<B>(q: Seq<Seq<QuadData<B>>>)
    requires
        q.len() == 6,
        forall|g: int| 0 <= g < 6 ==> #[trigger] q[g].len() <= MAX_QUADS_PER_FACE,
    ensures
        4 * spec_quad_count(q, 6) <= u32::MAX,
{
    assert(spec_quad_count(q, 6) == q[0].len() + q[1].len() + q[2].len() + q[3].len() + q[4].len() + q[5].len()) by {
        reveal_with_fuel(spec_quad_count, 7);
    }
    assert(q[0].len() <= MAX_QUADS_PER_FACE && q[1].len() <= MAX_QUADS_PER_FACE && q[2].len() <= MAX_QUADS_PER_FACE
        && q[3].len() <= MAX_QUADS_PER_FACE && q[4].len() <= MAX_QUADS_PER_FACE && q[5].len() <= MAX_QUADS_PER_FACE);
}

/// The trimesh of chunk quads `q` that `generate_chunk_trimesh` gives: none
/// exactly when no quad is solid (for a chunk without quads too), otherwise
/// the mesh of the solid quads.
pub open spec fn spec_trimesh_outcome<B, F: Fn(&B) -> bool>(
    q: Seq<Seq<QuadData<B>>>,
    is_traversable: F,
    r: Option<(Seq<(int, int, int)>, Seq<(int, int, int)>)>,
) -> bool {
    exists|solid: Seq<bool>| #![trigger spec_trimesh(spec_face_quads(q, 6), solid)] {
        let all = spec_face_quads(q, 6);
        &&& solid.len() == all.len()
        &&& forall|i: int| 0 <= i < all.len() ==> is_traversable.ensures((&all[i].1.block,), !#[trigger] solid[i])
        &&& (r is None <==> forall|i: int| 0 <= i < all.len() ==> !#[trigger] solid[i])
        &&& (r is Some ==> r == Some(spec_trimesh(all, solid)))
    }
}

pub open spec fn spec_trimesh_view(r: Option<(Vec<[u32; 3]>, Vec<[u32; 3]>)>) -> Option<(Seq<(int, int, int)>, Seq<(int, int, int)>)> {
    match r {
        Some(p) => Some((spec_triple_view(p.0@), spec_triple_view(p.1@))),
        None => None,
    }
}

/// The static collision trimesh of a chunk at level of detail `lod`: the
/// chunk is greedy-meshed and the quads of non-traversable blocks become
/// triangles. `None` exactly when the chunk has no solid geometry.
pub fn generate_chunk_trimesh<B: Copy, F: Fn(&B) -> bool, G: Fn(&B) -> bool>(
    chunk: &Chunk<B>,
    lod: usize,
    is_opaque: F,
    is_traversable: G,
) -> (r: Option<(Vec<[u32; 3]>, Vec<[u32; 3]>)>)
    requires
        usize::BITS == 64,
        chunk.wf(),
        lod >= 1,
        forall|b: &B| is_opaque.requires((b,)),
        forall|b: &B| is_traversable.requires((b,)),
    ensures
        exists|t: Seq<bool>, om: Seq<u64>, tm: Seq<u64>|
            #![trigger transparency_of(is_opaque, chunk.palette@, t), spec_greedy_mesh(spec_voxel_data_lod(chunk.data@, lod as int), om, tm)]
        {
            let v = spec_voxel_data_lod(chunk.data@, lod as int);
            let mesh = spec_greedy_mesh(v, om, tm);
            &&& transparency_of(is_opaque, chunk.palette@, t)
            &&& is_voxel_mask(om, v, t, false)
            &&& is_voxel_mask(tm, v, t, true)
            &&& spec_trimesh_outcome(spec_quads_from_mesh(mesh, v, chunk.palette@), is_traversable, spec_trimesh_view(r))
        },
{
    let q = extract_quads(chunk, lod, is_opaque);
    proof {
        lemma_face_quads_len(q@, 6);
    }
    if q.is_empty() {
        proof {
            lemma_empty_iff_no_quads(q);
            let all = spec_face_quads(q@, 6);
            let solid = Seq::<bool>::empty();
            assert(spec_trimesh(all, solid) == spec_trimesh(all, solid));
            assert(spec_trimesh_outcome(q@, is_traversable, spec_trimesh_view(None)));
        }
        return None;
    }
    proof {
        lemma_bounded_quads_fit(q@);
    }
    let (vertices, indices) = quads_to_trimesh(&q, is_traversable);
    let r = if vertices.len() == 0 || indices.len() == 0 {
        None
    } else {
        Some((vertices, indices))
    };
    proof {
        let all = spec_face_quads(q@, 6);
        let solid = choose|solid: Seq<bool>| #![trigger spec_trimesh(spec_face_quads(q@, 6), solid)] {
            &&& solid.len() == all.len()
            &&& forall|i: int| 0 <= i < all.len() ==> is_traversable.ensures((&all[i].1.block,), !#[trigger] solid[i])
            &&& (spec_triple_view(vertices@), spec_triple_view(indices@)) == spec_trimesh(all, solid)
        };
        lemma_trimesh_empty_iff_no_solid(all, solid);
        lemma_trimesh_indices_in_range(all, solid);
        assert(spec_triple_view(vertices@).len() == vertices@.len());
        assert(spec_triple_view(indices@).len() == indices@.len());
        assert(spec_trimesh_outcome(q@, is_traversable, spec_trimesh_view(r)));
    }
    r
}

} // verus!
