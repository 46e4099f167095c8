use vstd::prelude::*;

verus! {

/// Side of a chunk, in voxels.
pub const CHUNK_S1: usize = 62;
/// Side of a chunk with one voxel of neighbor padding on each side.
pub const CHUNKP_S1: usize = 64;
/// Voxels in one padded layer.
pub const CHUNKP_S2: usize = 4096;
/// Voxels in a padded chunk.
pub const CHUNKP_S3: usize = 262144;

/// Index of padded coordinates `(x, y, z)` in a padded chunk, in ZXY order
/// (z varies fastest, then x, then y).
pub open spec fn spec_linearize(x: int, y: int, z: int) -> int {
    z + x * 64 + y * 4096
}

/// Index of chunk coordinates `(x, y, z)`, shifted past the padding.
pub open spec fn spec_pad_linearize(x: int, y: int, z: int) -> int {
    spec_linearize(x + 1, y + 1, z + 1)
}

/// Index of padded coordinates in a padded chunk.
pub fn linearize(x: usize, y: usize, z: usize) -> (r: usize)
    requires
        x < 64,
        y < 64,
        z < 64,
    ensures
        r == spec_linearize(x as int, y as int, z as int),
        r < CHUNKP_S3,
{
    z + x * 64 + y * 4096
}

/// Index of chunk coordinates in a padded chunk.
pub fn pad_linearize(x: usize, y: usize, z: usize) -> (r: usize)
    requires
        x < 63,
        y < 63,
        z < 63,
    ensures
        r == spec_pad_linearize(x as int, y as int, z as int),
        r < CHUNKP_S3,
{
    linearize(x + 1, y + 1, z + 1)
}

/// A padded chunk of air.
pub(crate) fn air_voxels() -> (r: Vec<u16>)
    ensures
        r@ == Seq::new(CHUNKP_S3 as nat, |i: int| 0u16),
{
    let mut v: Vec<u16> = Vec::new();
    let mut i: usize = 0;
    while i < CHUNKP_S3
        invariant
            i <= CHUNKP_S3,
            v@ == Seq::new(i as nat, |j: int| 0u16),
        decreases CHUNKP_S3 - i,
    {
        v.push(0);
        i = i + 1;
        assert(v@ =~= Seq::new(i as nat, |j: int| 0u16));
    }
    v
}

/// The voxels of a chunk: a palette of the blocks that occur in it and, for
/// every voxel of the padded chunk, the index of its block in the palette.
/// Palette entry 0 is air.
#[derive(Clone, Debug)]
pub struct Chunk<B> {
    pub palette: Vec<B>,
    pub data: Vec<u16>,
}

impl<B> Chunk<B> {
    /// Every voxel refers to a palette entry.
    pub open spec fn wf(&self) -> bool {
        &&& self.data@.len() == CHUNKP_S3
        &&& 0 < self.palette@.len() <= 65536
        &&& forall|i: int| 0 <= i < CHUNKP_S3 ==> (#[trigger] self.data@[i]) < self.palette@.len()
    }

    /// Whether the chunk is well formed: a full padded grid whose voxels all
    /// refer to entries of a palette of at most 65536 blocks, air included.
    pub fn is_well_formed(&self) -> (r: bool)
        ensures
            r == self.wf(),
    {
        if self.data.len() != CHUNKP_S3 || self.palette.len() == 0 || self.palette.len() > 65536 {
            return false;
        }
        let n = self.palette.len();
        let mut i: usize = 0;
        while i < CHUNKP_S3
            invariant
                i <= CHUNKP_S3,
                self.data@.len() == CHUNKP_S3,
                n == self.palette@.len(),
                forall|k: int| 0 <= k < i ==> (#[trigger] self.data@[k]) < n,
            decreases CHUNKP_S3 - i,
        {
            if self.data[i] as usize >= n {
                return false;
            }
            i = i + 1;
        }
        true
    }

    /// An empty chunk: every voxel is air.
    pub fn new(air: B) -> (r: Chunk<B>)
        ensures
            r.wf(),
            r.palette@ == seq![air],
            r.data@ == Seq::new(CHUNKP_S3 as nat, |i: int| 0u16),
    {
        let data = air_voxels();
        let palette = vec![air];
        Chunk { palette, data }
    }
}

} // verus!
