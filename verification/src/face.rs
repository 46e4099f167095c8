use vstd::prelude::*;

verus! {

/// One of the six axis-aligned faces of a voxel.
#[derive(PartialEq, Eq, Structural, Hash, Debug, Clone, Copy)]
pub enum Face {
    Left,
    Down,
    Back,
    Right,
    Up,
    Front,
}

/// Selects which faces a block texture applies to: one face, the four side
/// faces, or all of them.
#[derive(PartialEq, Eq, Structural, Hash, Debug, Clone, Copy)]
pub enum FaceSpecifier {
    Specific(Face),
    Side,
    All,
}

/// The outward unit normal of a face.
pub open spec fn spec_normal(f: Face) -> (int, int, int) {
    match f {
        Face::Left => (-1, 0, 0),
        Face::Down => (0, -1, 0),
        Face::Back => (0, 0, -1),
        Face::Right => (1, 0, 0),
        Face::Up => (0, 1, 0),
        Face::Front => (0, 0, 1),
    }
}

/// Offset from the position of a meshed quad to the block that owns it.
pub open spec fn spec_quad_to_block(f: Face) -> (int, int, int) {
    match f {
        Face::Left => (-1, 0, 0),
        Face::Down => (0, -1, 0),
        Face::Back => (0, 0, -1),
        Face::Right => (0, 0, 0),
        Face::Up => (0, 0, 0),
        Face::Front => (-1, 0, 0),
    }
}

/// The face on the other side of the block.
pub open spec fn spec_opposite(f: Face) -> Face {
    match f {
        Face::Left => Face::Right,
        Face::Down => Face::Up,
        Face::Back => Face::Front,
        Face::Right => Face::Left,
        Face::Up => Face::Down,
        Face::Front => Face::Back,
    }
}

/// Texture lookup order for a face: most specific first, `All` last.
/// The bottom face falls back on the top texture; the four side faces
/// fall back on `Side`.
pub open spec fn spec_specifiers(f: Face) -> Seq<FaceSpecifier> {
    match f {
        Face::Up => seq![FaceSpecifier::Specific(Face::Up), FaceSpecifier::All],
        Face::Down => seq![
            FaceSpecifier::Specific(Face::Down),
            FaceSpecifier::Specific(Face::Up),
            FaceSpecifier::All,
        ],
        _ => seq![FaceSpecifier::Specific(f), FaceSpecifier::Side, FaceSpecifier::All],
    }
}

/// Face numbering of the greedy mesher's output groups
/// (Up, Down, Right, Left, Front, Back).
pub open spec fn spec_face_from_index(v: int) -> Face {
    if v == 0 {
        Face::Up
    } else if v == 1 {
        Face::Down
    } else if v == 2 {
        Face::Right
    } else if v == 3 {
        Face::Left
    } else if v == 4 {
        Face::Front
    } else {
        Face::Back
    }
}

/// The mesher index of a face; inverse of `spec_face_from_index`.
pub open spec fn spec_face_index(f: Face) -> int {
    match f {
        Face::Up => 0,
        Face::Down => 1,
        Face::Right => 2,
        Face::Left => 3,
        Face::Front => 4,
        Face::Back => 5,
    }
}

impl Face {
    /// Outward normal of the face, as an integer vector.
    pub fn n(&self) -> (r: [i32; 3])
        ensures
            (r[0] as int, r[1] as int, r[2] as int) == spec_normal(*self),
    {
        match self {
            Face::Left => [-1, 0, 0],
            Face::Down => [0, -1, 0],
            Face::Back => [0, 0, -1],
            Face::Right => [1, 0, 0],
            Face::Up => [0, 1, 0],
            Face::Front => [0, 0, 1],
        }
    }

    /// Offset to add to a quad's position to reach the block it belongs to.
    pub fn quad_to_block(&self) -> (r: [i32; 3])
        ensures
            (r[0] as int, r[1] as int, r[2] as int) == spec_quad_to_block(*self),
    {
        match self {
            Face::Left => [-1, 0, 0],
            Face::Down => [0, -1, 0],
            Face::Back => [0, 0, -1],
            Face::Right => [0, 0, 0],
            Face::Up => [0, 0, 0],
            Face::Front => [-1, 0, 0],
        }
    }

    /// Texture specifiers that apply to this face, most specific first.
    pub fn specifiers(&self) -> (r: Vec<FaceSpecifier>)
        ensures
            r@ == spec_specifiers(*self),
    {
        match self {
            Face::Left => vec![
                FaceSpecifier::Specific(Face::Left),
                FaceSpecifier::Side,
                FaceSpecifier::All,
            ],
            Face::Down => vec![
                FaceSpecifier::Specific(Face::Down),
                FaceSpecifier::Specific(Face::Up),
                FaceSpecifier::All,
            ],
            Face::Back => vec![
                FaceSpecifier::Specific(Face::Back),
                FaceSpecifier::Side,
                FaceSpecifier::All,
            ],
            Face::Right => vec![
                FaceSpecifier::Specific(Face::Right),
                FaceSpecifier::Side,
                FaceSpecifier::All,
            ],
            Face::Up => vec![FaceSpecifier::Specific(Face::Up), FaceSpecifier::All],
            Face::Front => vec![
                FaceSpecifier::Specific(Face::Front),
                FaceSpecifier::Side,
                FaceSpecifier::All,
            ],
        }
    }

    /// The face on the other side of the block.
    pub fn opposite(&self) -> (r: Face)
        ensures
            r == spec_opposite(*self),
    {
        match self {
            Face::Left => Face::Right,
            Face::Down => Face::Up,
            Face::Back => Face::Front,
            Face::Right => Face::Left,
            Face::Up => Face::Down,
            Face::Front => Face::Back,
        }
    }

    /// Face for a greedy-mesher output group index (0..6).
    pub fn from_u8(value: u8) -> (r: Face)
        requires
            value < 6,
        ensures
            r == spec_face_from_index(value as int),
    {
        match value {
            0 => Face::Up,
            1 => Face::Down,
            2 => Face::Right,
            3 => Face::Left,
            4 => Face::Front,
            _ => Face::Back,
        }
    }

    /// Face for a mesher group index given as `usize`; the index is first
    /// truncated to a byte, as the conversion through `u8` does.
    pub fn from_usize(value: usize) -> (r: Face)
        requires
            (value as u8) < 6,
        ensures
            r == spec_face_from_index((value as u8) as int),
    {
        Face::from_u8(value as u8)
    }
}


// ---------------------------------------------------------------------------
// Quad geometry
// ---------------------------------------------------------------------------

/// Packs three 6-bit coordinates as `z << 12 | y << 6 | x` (32-bit shifts).
pub open spec fn spec_packed_xyz(x: u32, y: u32, z: u32) -> u32 {
    (z << 12u32) | (y << 6u32) | x
}

/// Packs a vertex position with its texture coordinates: `v << 24 | u << 18 | xyz`.
pub open spec fn spec_vertex_info(xyz: u32, u: u32, v: u32) -> u32 {
    (v << 24u32) | (u << 18u32) | xyz
}

pub open spec fn fits_u32(v: int) -> bool {
    0 <= v <= u32::MAX
}

/// Packed positions of the four vertices of a quad, computed over the
/// integers from the scaled base position `xyz` and scaled sizes `w`, `h`.
pub open spec fn spec_packed_positions(f: Face, xyz: int, w: u32, h: u32) -> Seq<int> {
    let pw = spec_packed_xyz(w, 0, 0) as int;
    let pwy = spec_packed_xyz(0, w, 0) as int;
    let ph = spec_packed_xyz(0, 0, h) as int;
    let phy = spec_packed_xyz(0, h, 0) as int;
    let pwh = spec_packed_xyz(0, w, h) as int;
    let pwx_h = spec_packed_xyz(w, 0, h) as int;
    let pwx_hy = spec_packed_xyz(w, h, 0) as int;
    match f {
        Face::Left => seq![xyz, xyz + ph, xyz + pwy, xyz + pwh],
        Face::Down => seq![xyz - pw + ph, xyz - pw, xyz + ph, xyz],
        Face::Back => seq![xyz, xyz + phy, xyz + pw, xyz + pwx_hy],
        Face::Right => seq![xyz, xyz + ph, xyz - pwy, xyz + ph - pwy],
        Face::Up => seq![xyz + pwx_h, xyz + pw, xyz + ph, xyz],
        Face::Front => seq![xyz - pw + phy, xyz - pw, xyz + phy, xyz],
    }
}

/// Every intermediate value of the 32-bit position arithmetic stays in range,
/// so none of the additions or subtractions overflows.
pub open spec fn packed_positions_defined(f: Face, xyz: int, w: u32, h: u32) -> bool {
    let pw = spec_packed_xyz(w, 0, 0) as int;
    let pwy = spec_packed_xyz(0, w, 0) as int;
    let ph = spec_packed_xyz(0, 0, h) as int;
    let phy = spec_packed_xyz(0, h, 0) as int;
    let pwh = spec_packed_xyz(0, w, h) as int;
    let pwx_h = spec_packed_xyz(w, 0, h) as int;
    let pwx_hy = spec_packed_xyz(w, h, 0) as int;
    fits_u32(xyz) && match f {
        Face::Left => fits_u32(xyz + ph) && fits_u32(xyz + pwy) && fits_u32(xyz + pwh),
        Face::Down => fits_u32(xyz - pw) && fits_u32(xyz - pw + ph) && fits_u32(xyz + ph),
        Face::Back => fits_u32(xyz + phy) && fits_u32(xyz + pw) && fits_u32(xyz + pwx_hy),
        Face::Right => fits_u32(xyz + ph) && fits_u32(xyz - pwy) && fits_u32(xyz + ph - pwy),
        Face::Up => fits_u32(xyz + pwx_h) && fits_u32(xyz + pw) && fits_u32(xyz + ph),
        Face::Front => fits_u32(xyz - pw) && fits_u32(xyz - pw + phy) && fits_u32(xyz + phy),
    }
}

/// Texture coordinates `(u, v)` of the four vertices, from the unscaled sizes.
pub open spec fn spec_vertex_uvs(f: Face, w: u32, h: u32) -> Seq<(u32, u32)> {
    match f {
        Face::Left => seq![(h, w), (0, w), (h, 0), (0, 0)],
        Face::Down => seq![(w, h), (w, 0), (0, h), (0, 0)],
        Face::Back => seq![(w, h), (w, 0), (0, h), (0, 0)],
        Face::Right => seq![(0, 0), (h, 0), (0, w), (h, w)],
        Face::Up => seq![(w, h), (w, 0), (0, h), (0, 0)],
        Face::Front => seq![(0, 0), (0, h), (w, 0), (w, h)],
    }
}

/// The four packed vertices of a quad at packed position `xyz` with size
/// `w` x `h`, at level of detail `lod`.
pub open spec fn spec_vertices_packed(f: Face, xyz: u32, w: u32, h: u32, lod: u32) -> Seq<u32> {
    let pos = spec_packed_positions(f, xyz * lod, (w * lod) as u32, (h * lod) as u32);
    let uv = spec_vertex_uvs(f, w, h);
    Seq::new(4, |i: int| spec_vertex_info(pos[i] as u32, uv[i].0, uv[i].1))
}

/// The inputs on which `vertices_packed` does not overflow.
pub open spec fn vertices_packed_defined(f: Face, xyz: u32, w: u32, h: u32, lod: u32) -> bool {
    &&& xyz * lod <= u32::MAX
    &&& w * lod <= u32::MAX
    &&& h * lod <= u32::MAX
    &&& packed_positions_defined(f, xyz * lod, (w * lod) as u32, (h * lod) as u32)
}

fn fits_u32_exec(v: i64) -> (r: bool)
    ensures
        r == fits_u32(v as int),
{
    0 <= v && v <= u32::MAX as i64
}

/// Packs three coordinates into one word: `z << 12 | y << 6 | x`.
fn packed_xyz(x: u32, y: u32, z: u32) -> (r: u32)
    ensures
        r == spec_packed_xyz(x, y, z),
{
    (z << 12u32) | (y << 6u32) | x
}

/// Packs a vertex position with texture coordinates: `v << 24 | u << 18 | xyz`.
fn vertex_info(xyz: u32, u: u32, v: u32) -> (r: u32)
    ensures
        r == spec_vertex_info(xyz, u, v),
{
    (v << 24u32) | (u << 18u32) | xyz
}

/// Triangle indices of a quad whose vertices start at `base`: the two
/// triangles `(0, 1, 2)` and `(2, 1, 3)`.
pub open spec fn spec_triangle_indices(base: int) -> (Seq<int>, Seq<int>) {
    (seq![base, base + 1, base + 2], seq![base + 2, base + 1, base + 3])
}

/// Integer corners of a quad at `(x, y, z)` of size `w` x `h` on a face, in
/// the vertex order that `spec_triangle_indices` winds outward.
pub open spec fn spec_quad_corners(f: Face, x: int, y: int, z: int, w: int, h: int) -> Seq<(int, int, int)> {
    match f {
        Face::Left => seq![(x, y, z), (x, y, z + h), (x, y + w, z), (x, y + w, z + h)],
        Face::Right => seq![(x + 1, y, z), (x + 1, y + w, z), (x + 1, y, z + h), (x + 1, y + w, z + h)],
        Face::Down => seq![(x, y, z), (x + w, y, z), (x, y, z + h), (x + w, y, z + h)],
        Face::Up => seq![(x, y + 1, z), (x, y + 1, z + h), (x + w, y + 1, z), (x + w, y + 1, z + h)],
        Face::Back => seq![(x, y, z), (x, y + h, z), (x + w, y, z), (x + w, y + h, z)],
        Face::Front => seq![(x, y, z + 1), (x + w, y, z + 1), (x, y + h, z + 1), (x + w, y + h, z + 1)],
    }
}

/// Cross product `(b - a) x (c - a)`.
pub open spec fn spec_triangle_cross(a: (int, int, int), b: (int, int, int), c: (int, int, int)) -> (int, int, int) {
    let e1 = (b.0 - a.0, b.1 - a.1, b.2 - a.2);
    let e2 = (c.0 - a.0, c.1 - a.1, c.2 - a.2);
    (e1.1 * e2.2 - e1.2 * e2.1, e1.2 * e2.0 - e1.0 * e2.2, e1.0 * e2.1 - e1.1 * e2.0)
}

impl Face {
    /// Integer corners of a quad on this face; the grid counterpart of the
    /// floating-point vertex positions used for colliders and rendering.
    pub fn quad_corners(&self, x: u8, y: u8, z: u8, w: u8, h: u8) -> (r: [[u32; 3]; 4])
        ensures
            forall|i: int| 0 <= i < 4 ==> (r[i][0] as int, r[i][1] as int, r[i][2] as int)
                == #[trigger] spec_quad_corners(*self, x as int, y as int, z as int, w as int, h as int)[i],
    {
        let x = x as u32;
        let y = y as u32;
        let z = z as u32;
        let w = w as u32;
        let h = h as u32;
        match self {
            Face::Left => [[x, y, z], [x, y, z + h], [x, y + w, z], [x, y + w, z + h]],
            Face::Right => [[x + 1, y, z], [x + 1, y + w, z], [x + 1, y, z + h], [x + 1, y + w, z + h]],
            Face::Down => [[x, y, z], [x + w, y, z], [x, y, z + h], [x + w, y, z + h]],
            Face::Up => [[x, y + 1, z], [x, y + 1, z + h], [x + w, y + 1, z], [x + w, y + 1, z + h]],
            Face::Back => [[x, y, z], [x, y + h, z], [x + w, y, z], [x + w, y + h, z]],
            Face::Front => [[x, y, z + 1], [x + w, y, z + 1], [x, y + h, z + 1], [x + w, y + h, z + 1]],
        }
    }

    /// Triangle indices for a quad whose four vertices start at `base`,
    /// wound so that both triangles face outward.
    pub fn triangle_indices(&self, base: u32) -> (r: ([u32; 3], [u32; 3]))
        requires
            base + 3 <= u32::MAX,
        ensures
            r.0@.map_values(|v: u32| v as int) == spec_triangle_indices(base as int).0,
            r.1@.map_values(|v: u32| v as int) == spec_triangle_indices(base as int).1,
    {
        let r = ([base, base + 1, base + 2], [base + 2, base + 1, base + 3]);
        assert(r.0@.map_values(|v: u32| v as int) =~= spec_triangle_indices(base as int).0);
        assert(r.1@.map_values(|v: u32| v as int) =~= spec_triangle_indices(base as int).1);
        r
    }

    /// The four vertices of a quad, packed with their texture coordinates
    /// for the voxel shader. The position and sizes are scaled by `lod`.
    pub fn vertices_packed(&self, xyz: u32, w: u32, h: u32, lod: u32) -> (r: [u32; 4])
        requires
            vertices_packed_defined(*self, xyz, w, h, lod),
        ensures
            r@ == spec_vertices_packed(*self, xyz, w, h, lod),
    {
        let p = xyz * lod;
        let w_ = w * lod;
        let h_ = h * lod;
        let r = match self {
            Face::Left => [
                vertex_info(p, h, w),
                vertex_info(p + packed_xyz(0, 0, h_), 0, w),
                vertex_info(p + packed_xyz(0, w_, 0), h, 0),
                vertex_info(p + packed_xyz(0, w_, h_), 0, 0),
            ],
            Face::Down => [
                vertex_info(p - packed_xyz(w_, 0, 0) + packed_xyz(0, 0, h_), w, h),
                vertex_info(p - packed_xyz(w_, 0, 0), w, 0),
                vertex_info(p + packed_xyz(0, 0, h_), 0, h),
                vertex_info(p, 0, 0),
            ],
            Face::Back => [
                vertex_info(p, w, h),
                vertex_info(p + packed_xyz(0, h_, 0), w, 0),
                vertex_info(p + packed_xyz(w_, 0, 0), 0, h),
                vertex_info(p + packed_xyz(w_, h_, 0), 0, 0),
            ],
            Face::Right => [
                vertex_info(p, 0, 0),
                vertex_info(p + packed_xyz(0, 0, h_), h, 0),
                vertex_info(p - packed_xyz(0, w_, 0), 0, w),
                vertex_info(p + packed_xyz(0, 0, h_) - packed_xyz(0, w_, 0), h, w),
            ],
            Face::Up => [
                vertex_info(p + packed_xyz(w_, 0, h_), w, h),
                vertex_info(p + packed_xyz(w_, 0, 0), w, 0),
                vertex_info(p + packed_xyz(0, 0, h_), 0, h),
                vertex_info(p, 0, 0),
            ],
            Face::Front => [
                vertex_info(p - packed_xyz(w_, 0, 0) + packed_xyz(0, h_, 0), 0, 0),
                vertex_info(p - packed_xyz(w_, 0, 0), 0, h),
                vertex_info(p + packed_xyz(0, h_, 0), w, 0),
                vertex_info(p, w, h),
            ],
        };
        assert(r@ =~= spec_vertices_packed(*self, xyz, w, h, lod));
        r
    }

    /// Whether `vertices_packed` can pack this quad: the scaled position and
    /// sizes, and every vertex position computed from them, fit in 32 bits.
    pub fn vertices_packed_fits(&self, xyz: u32, w: u32, h: u32, lod: u32) -> (r: bool)
        ensures
            r == vertices_packed_defined(*self, xyz, w, h, lod),
    {
        assert(xyz * lod <= u32::MAX * u32::MAX && w * lod <= u32::MAX * u32::MAX && h * lod <= u32::MAX * u32::MAX)
            by (nonlinear_arith);
        let p = xyz as u64 * lod as u64;
        let w_ = w as u64 * lod as u64;
        let h_ = h as u64 * lod as u64;
        if p > u32::MAX as u64 || w_ > u32::MAX as u64 || h_ > u32::MAX as u64 {
            return false;
        }
        let w_ = w_ as u32;
        let h_ = h_ as u32;
        let p = p as i64;
        let pw = packed_xyz(w_, 0, 0) as i64;
        let pwy = packed_xyz(0, w_, 0) as i64;
        let ph = packed_xyz(0, 0, h_) as i64;
        let phy = packed_xyz(0, h_, 0) as i64;
        let pwh = packed_xyz(0, w_, h_) as i64;
        let pwx_h = packed_xyz(w_, 0, h_) as i64;
        let pwx_hy = packed_xyz(w_, h_, 0) as i64;
        match self {
            Face::Left => fits_u32_exec(p + ph) && fits_u32_exec(p + pwy) && fits_u32_exec(p + pwh),
            Face::Down => fits_u32_exec(p - pw) && fits_u32_exec(p - pw + ph) && fits_u32_exec(p + ph),
            Face::Back => fits_u32_exec(p + phy) && fits_u32_exec(p + pw) && fits_u32_exec(p + pwx_hy),
            Face::Right => fits_u32_exec(p + ph) && fits_u32_exec(p - pwy) && fits_u32_exec(p + ph - pwy),
            Face::Up => fits_u32_exec(p + pwx_h) && fits_u32_exec(p + pw) && fits_u32_exec(p + ph),
            Face::Front => fits_u32_exec(p - pw) && fits_u32_exec(p - pw + phy) && fits_u32_exec(p + phy),
        }
    }
}


// ---------------------------------------------------------------------------
// Laws
// ---------------------------------------------------------------------------

/// Texture coordinates `(u, v)` read back from a packed vertex.
pub open spec fn spec_vertex_uv(r: u32) -> (u32, u32) {
    ((r >> 18u32) & 0x3f, r >> 24u32)
}

/// The texture size of a quad on a face: `(h, w)` on the faces whose
/// texture is turned (Left and Right), `(w, h)` on the others.
pub open spec fn spec_texture_size(f: Face, w: u32, h: u32) -> (u32, u32) {
    match f {
        Face::Left | Face::Right => (h, w),
        _ => (w, h),
    }
}

pub(crate) proof fn lemma_vertex_info_uv(pos: u32, u: u32, v: u32)
    requires
        pos < 0x40000,
        u < 64,
        v < 64,
    ensures
        spec_vertex_uv(spec_vertex_info(pos, u, v)) == (u, v),
{
    assert(((((v << 24u32) | (u << 18u32) | pos) >> 18u32) & 0x3f) == u) by (bit_vector)
        requires
            pos < 0x40000,
            u < 64,
            v < 64,
    ;
    assert((((v << 24u32) | (u << 18u32) | pos) >> 24u32) == v) by (bit_vector)
        requires
            pos < 0x40000,
            u < 64,
            v < 64,
    ;
}

/// The texture coordinates of a packed quad do not depend on its position
/// or level of detail: vertex `k` carries `spec_vertex_uvs(f, w, h)[k]`,
/// and the four vertices carry the four corners of the texture rectangle.
/// Stated for quads of sides below 64 whose scaled vertex positions fit the
/// 18 position bits.
pub proof fn lemma_vertices_packed_uv(f: Face, xyz: u32, w: u32, h: u32, lod: u32)
    requires
        w < 64,
        h < 64,
        vertices_packed_defined(f, xyz, w, h, lod),
        forall|k: int| 0 <= k < 4 ==> #[trigger] spec_packed_positions(f, xyz * lod, (w * lod) as u32, (h * lod) as u32)[k] < 0x40000,
    ensures
        forall|k: int| 0 <= k < 4 ==> spec_vertex_uv(#[trigger] spec_vertices_packed(f, xyz, w, h, lod)[k]) == spec_vertex_uvs(f, w, h)[k],
        ({
            let (a, b) = spec_texture_size(f, w, h);
            spec_vertex_uvs(f, w, h).to_set() == set![(0u32, 0u32), (a, 0u32), (0u32, b), (a, b)]
        }),
{
    let pos = spec_packed_positions(f, xyz * lod, (w * lod) as u32, (h * lod) as u32);
    let uv = spec_vertex_uvs(f, w, h);
    assert forall|k: int| 0 <= k < 4 implies spec_vertex_uv(#[trigger] spec_vertices_packed(f, xyz, w, h, lod)[k]) == uv[k] by {
        assert(pos[k] < 0x40000);
        lemma_vertex_info_uv(pos[k] as u32, uv[k].0, uv[k].1);
    }
    let (a, b) = spec_texture_size(f, w, h);
    let corners = set![(0u32, 0u32), (a, 0u32), (0u32, b), (a, b)];
    assert forall|c: (u32, u32)| #[trigger] uv.to_set().contains(c) <==> corners.contains(c) by {
        if corners.contains(c) {
            if c == (0u32, 0u32) {
                assert(uv.contains(c)) by { match f { Face::Left => assert(uv[3] == c), Face::Down => assert(uv[3] == c), Face::Back => assert(uv[3] == c), Face::Right => assert(uv[0] == c), Face::Up => assert(uv[3] == c), Face::Front => assert(uv[0] == c) } }
            } else if c == (a, 0u32) {
                assert(uv.contains(c)) by { match f { Face::Left => assert(uv[2] == c), Face::Down => assert(uv[1] == c), Face::Back => assert(uv[1] == c), Face::Right => assert(uv[1] == c), Face::Up => assert(uv[1] == c), Face::Front => assert(uv[2] == c) } }
            } else if c == (0u32, b) {
                assert(uv.contains(c)) by { match f { Face::Left => assert(uv[1] == c), Face::Down => assert(uv[2] == c), Face::Back => assert(uv[2] == c), Face::Right => assert(uv[2] == c), Face::Up => assert(uv[2] == c), Face::Front => assert(uv[1] == c) } }
            } else {
                assert(uv.contains(c)) by { match f { Face::Left => assert(uv[0] == c), Face::Down => assert(uv[0] == c), Face::Back => assert(uv[0] == c), Face::Right => assert(uv[3] == c), Face::Up => assert(uv[0] == c), Face::Front => assert(uv[3] == c) } }
            }
        }
    }
    assert(uv.to_set() =~= corners);
}

/// Taking the opposite face twice gives the face back; a face is never its
/// own opposite, and opposite faces have opposite normals.
pub proof fn lemma_opposite_involution(f: Face)
    ensures
        spec_opposite(spec_opposite(f)) == f,
        spec_opposite(f) != f,
        spec_normal(spec_opposite(f)) == (
            -spec_normal(f).0,
            -spec_normal(f).1,
            -spec_normal(f).2,
        ),
{
}

/// The mesher group numbering names each of the six faces exactly once.
pub proof fn lemma_face_index_bijection(f: Face, i: int)
    ensures
        spec_face_from_index(spec_face_index(f)) == f,
        0 <= spec_face_index(f) < 6,
        0 <= i < 6 ==> spec_face_index(spec_face_from_index(i)) == i,
{
}

/// A face's own specifier comes first and `All` comes last, so the most
/// specific texture wins and every face has a fallback.
pub proof fn lemma_specifiers_most_specific_first(f: Face)
    ensures
        spec_specifiers(f).len() >= 2,
        spec_specifiers(f)[0] == FaceSpecifier::Specific(f),
        spec_specifiers(f).last() == FaceSpecifier::All,
        spec_specifiers(f).contains(FaceSpecifier::Side) <==> (f != Face::Up && f != Face::Down),
{
    if f == Face::Up || f == Face::Down {
        assert(!spec_specifiers(f).contains(FaceSpecifier::Side)) by {
            if spec_specifiers(f).contains(FaceSpecifier::Side) {
                let k = choose|k: int| 0 <= k < spec_specifiers(f).len() && spec_specifiers(f)[k] == FaceSpecifier::Side;
                assert(false);
            }
        }
    } else {
        assert(spec_specifiers(f)[1] == FaceSpecifier::Side);
    }
}

/// Dot product of two integer vectors.
pub open spec fn spec_dot(a: (int, int, int), b: (int, int, int)) -> int {
    a.0 * b.0 + a.1 * b.1 + a.2 * b.2
}

/// 1 on the faces whose normal points along a positive axis (Right, Up,
/// Front), 0 on the others.
pub open spec fn spec_far_side(f: Face) -> int {
    let n = spec_normal(f);
    if n.0 + n.1 + n.2 > 0 {
        1
    } else {
        0
    }
}

/// Every corner of a quad at block `(x, y, z)` lies on the plane of its
/// face: the block's own side, which is the plane through `(x, y, z)` for
/// Left, Down and Back and one block further along the normal (`x + 1`,
/// `y + 1`, `z + 1`) for Right, Up and Front. The first corner is the block
/// corner moved onto that plane.
pub proof fn lemma_quad_corners_on_face_plane(f: Face, x: int, y: int, z: int, w: int, h: int)
    ensures
        forall|k: int| 0 <= k < 4 ==> spec_dot(spec_normal(f), #[trigger] spec_quad_corners(f, x, y, z, w, h)[k])
            == spec_dot(spec_normal(f), (x, y, z)) + spec_far_side(f),
        ({
            let n = spec_normal(f);
            let s = spec_far_side(f);
            spec_quad_corners(f, x, y, z, w, h)[0] == (x + s * n.0, y + s * n.1, z + s * n.2)
        }),
{
    assert forall|k: int| 0 <= k < 4 implies spec_dot(spec_normal(f), #[trigger] spec_quad_corners(f, x, y, z, w, h)[k])
        == spec_dot(spec_normal(f), (x, y, z)) + spec_far_side(f) by {
        let c = spec_quad_corners(f, x, y, z, w, h);
        let n = spec_normal(f);
        let s = spec_far_side(f);
        assert(c[k] == c[0] || c[k] == c[1] || c[k] == c[2] || c[k] == c[3]);
        assert(spec_dot(n, c[k]) == spec_dot(n, (x, y, z)) + s) by (nonlinear_arith)
            requires
                c == spec_quad_corners(f, x, y, z, w, h),
                n == spec_normal(f),
                s == spec_far_side(f),
                c[k] == c[0] || c[k] == c[1] || c[k] == c[2] || c[k] == c[3],
        {
            match f {
                Face::Left => {}
                Face::Right => {}
                Face::Down => {}
                Face::Up => {}
                Face::Back => {}
                Face::Front => {}
            }
        }
    }
    let n = spec_normal(f);
    let s = spec_far_side(f);
    assert(spec_quad_corners(f, x, y, z, w, h)[0] == (x + s * n.0, y + s * n.1, z + s * n.2)) by (nonlinear_arith)
        requires
            n == spec_normal(f),
            s == spec_far_side(f),
    {
        match f {
            Face::Left => {}
            Face::Right => {}
            Face::Down => {}
            Face::Up => {}
            Face::Back => {}
            Face::Front => {}
        }
    }
}

/// Both triangles of a quad, taken with `triangle_indices`, wind so that
/// their cross product is `w * h` times the face's outward normal: the
/// triangles face outward and agree with each other and with `n()`.
#[verifier::spinoff_prover]
#[verifier::rlimit(40)]
pub proof fn lemma_quad_winding_outward(f: Face, x: int, y: int, z: int, w: int, h: int)
    ensures
        ({
            let c = spec_quad_corners(f, x, y, z, w, h);
            let n = spec_normal(f);
            &&& spec_triangle_cross(c[0], c[1], c[2]) == (w * h * n.0, w * h * n.1, w * h * n.2)
            &&& spec_triangle_cross(c[2], c[1], c[3]) == (w * h * n.0, w * h * n.1, w * h * n.2)
        }),
{
    let c = spec_quad_corners(f, x, y, z, w, h);
    let n = spec_normal(f);
    let e = (w * h * n.0, w * h * n.1, w * h * n.2);
    assert(spec_triangle_cross(c[0], c[1], c[2]) == e && spec_triangle_cross(c[2], c[1], c[3]) == e)
        by (nonlinear_arith)
        requires
            c == spec_quad_corners(f, x, y, z, w, h),
            n == spec_normal(f),
            e == (w * h * n.0, w * h * n.1, w * h * n.2),
    {
        match f {
            Face::Left => {}
            Face::Right => {}
            Face::Down => {}
            Face::Up => {}
            Face::Back => {}
            Face::Front => {}
        }
    }
}

} // verus!
