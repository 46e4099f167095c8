use vstd::prelude::*;

use crate::keyed::KeyEq;

verus! {

/// A world realm, identified by its index (the overworld is realm 0).
#[derive(PartialEq, Eq, Structural, PartialOrd, Ord, Hash, Debug, Clone, Copy)]
pub struct Realm(pub u8);

/// Position of a chunk in chunk coordinates.
#[derive(PartialEq, Eq, Structural, PartialOrd, Ord, Hash, Debug, Clone, Copy)]
pub struct ChunkPos {
    pub x: i32,
    pub y: i32,
    pub z: i32,
    pub realm: Realm,
}

/// Position of a vertical column of chunks.
#[derive(PartialEq, Eq, Structural, PartialOrd, Ord, Hash, Debug, Clone, Copy)]
pub struct ColPos {
    pub x: i32,
    pub z: i32,
    pub realm: Realm,
}

impl KeyEq for ChunkPos {
    fn key_eq(&self, other: &Self) -> (r: bool) {
        *self == *other
    }
}

impl KeyEq for ColPos {
    fn key_eq(&self, other: &Self) -> (r: bool) {
        *self == *other
    }
}

/// The column a chunk belongs to.
pub open spec fn spec_col_of(p: ChunkPos) -> ColPos {
    ColPos { x: p.x, z: p.z, realm: p.realm }
}

impl ChunkPos {
    /// The column this chunk belongs to.
    pub fn col(&self) -> (r: ColPos)
        ensures
            r == spec_col_of(*self),
    {
        ColPos { x: self.x, z: self.z, realm: self.realm }
    }
}

/// The chunks of a column, bottom to top, for a world `y_chunks` chunks high.
pub open spec fn spec_chunks_in_col(col: ColPos, y_chunks: int) -> Seq<ChunkPos> {
    Seq::new(
        if y_chunks > 0 { y_chunks as nat } else { 0 },
        |y: int| ChunkPos { x: col.x, y: y as i32, z: col.z, realm: col.realm },
    )
}

/// The chunks of a column, bottom to top.
pub fn chunks_in_col(col: &ColPos, y_chunks: i32) -> (r: Vec<ChunkPos>)
    ensures
        r@ == spec_chunks_in_col(*col, y_chunks as int),
{
    let mut out: Vec<ChunkPos> = Vec::new();
    let mut y: i32 = 0;
    while y < y_chunks
        invariant
            0 <= y,
            y_chunks > 0 ==> y <= y_chunks,
            y_chunks <= 0 ==> y == 0,
            out@ == spec_chunks_in_col(*col, y as int),
        decreases y_chunks - y,
    {
        out.push(ChunkPos { x: col.x, y, z: col.z, realm: col.realm });
        y = y + 1;
        assert(out@ =~= spec_chunks_in_col(*col, y as int));
    }
    assert(out@ =~= spec_chunks_in_col(*col, y_chunks as int));
    out
}

/// The collision layer bit of a realm: bit `realm + 1`, so that entities
/// only collide with colliders of their own realm.
pub fn realm_collision_bit(realm: Realm) -> (r: u32)
    requires
        realm.0 < 31,
    ensures
        r == 1u32 << ((realm.0 + 1) as u32),
        r as int == vstd::arithmetic::power2::pow2((realm.0 + 1) as nat),
{
    let shift: u32 = realm.0 as u32 + 1;
    proof {
        vstd::bits::lemma_u32_pow2_no_overflow(shift as nat);
        vstd::bits::lemma_u32_shl_is_mul(1u32, shift);
    }
    1u32 << shift
}

} // verus!
