use riverbed::chunk::{linearize, pad_linearize, Chunk, CHUNKP_S3};
use riverbed::face::Face;
use riverbed::greedy::{extract_quads, generate_chunk_trimesh, quads_to_trimesh, ChunkQuads, QuadData};
use riverbed::lod::voxel_data_lod;

/// Blocks of these tests: 0 is air, 1 is granite (solid), 2 is glass
/// (solid but not opaque), 3 is water (neither opaque nor solid).
const AIR: u8 = 0;
const GRANITE: u8 = 1;
const GLASS: u8 = 2;
const WATER: u8 = 3;

fn is_opaque(b: &u8) -> bool {
    *b == GRANITE
}

fn is_traversable(b: &u8) -> bool {
    *b == AIR || *b == WATER
}

/// Sets the block at chunk coordinates `(x, y, z)`, adding it to the palette.
fn set(chunk: &mut Chunk<u8>, x: usize, y: usize, z: usize, block: u8) {
    let id = match chunk.palette.iter().position(|b| *b == block) {
        Some(i) => i,
        None => {
            chunk.palette.push(block);
            chunk.palette.len() - 1
        }
    };
    chunk.data[pad_linearize(x, y, z)] = id as u16;
}

#[test]
fn test_extract_quads_empty_chunk() {
    let chunk = Chunk::new(AIR);
    let quads = extract_quads(&chunk, 1, is_opaque);
    assert!(quads.is_empty());
}

#[test]
fn test_extract_quads_single_block() {
    let mut chunk = Chunk::new(AIR);
    set(&mut chunk, 1, 1, 1, GRANITE);
    let quads = extract_quads(&chunk, 1, is_opaque);
    // A single block should produce 6 quads (one per face)
    assert_eq!(quads.total_quads(), 6);
}

#[test]
fn test_empty_chunk_no_collider() {
    let chunk = Chunk::new(AIR);
    let collider = generate_chunk_trimesh(&chunk, 1, is_opaque, is_traversable);
    assert!(collider.is_none());
}

#[test]
fn test_single_block_generates_collider() {
    let mut chunk = Chunk::new(AIR);
    set(&mut chunk, 1, 1, 1, GRANITE);
    let collider = generate_chunk_trimesh(&chunk, 1, is_opaque, is_traversable);
    assert!(collider.is_some());
}

#[test]
fn single_block_quads_name_the_block_and_its_neighbors() {
    let mut chunk = Chunk::new(AIR);
    set(&mut chunk, 4, 5, 6, GRANITE);
    let quads = extract_quads(&chunk, 1, is_opaque);
    for group in quads.faces.iter() {
        assert_eq!(group.len(), 1);
        let q = group[0];
        assert_eq!(q.block, GRANITE);
        assert_eq!(q.neighbor_block, AIR);
        assert_eq!((q.width, q.height), (1, 1));
    }
}

#[test]
fn single_block_trimesh_has_two_triangles_per_face() {
    let mut chunk = Chunk::new(AIR);
    set(&mut chunk, 1, 1, 1, GRANITE);
    let (vertices, indices) = generate_chunk_trimesh(&chunk, 1, is_opaque, is_traversable).unwrap();
    // Six faces, four corners and two triangles each.
    assert_eq!(vertices.len(), 24);
    assert_eq!(indices.len(), 12);
    for t in &indices {
        for &i in t {
            assert!((i as usize) < vertices.len());
        }
    }
    // The corners of each face are the quad corners of the extracted quad, in
    // mesher group order.
    let quads = extract_quads(&chunk, 1, is_opaque);
    for fi in 0..6 {
        let face = Face::from_usize(fi);
        let q = quads.faces[fi][0];
        let corners = face.quad_corners(q.x(), q.y(), q.z(), q.width, q.height);
        assert_eq!(vertices[4 * fi..4 * fi + 4], corners);
        assert_eq!(indices[2 * fi], [4 * fi as u32, 4 * fi as u32 + 1, 4 * fi as u32 + 2]);
        assert_eq!(indices[2 * fi + 1], [4 * fi as u32 + 2, 4 * fi as u32 + 1, 4 * fi as u32 + 3]);
    }
}

#[test]
fn traversable_blocks_have_no_collider() {
    let mut chunk = Chunk::new(AIR);
    set(&mut chunk, 3, 3, 3, WATER);
    let quads = extract_quads(&chunk, 1, is_opaque);
    assert_eq!(quads.total_quads(), 6);
    let collider = generate_chunk_trimesh(&chunk, 1, is_opaque, is_traversable);
    assert!(collider.is_none());
}

#[test]
fn two_adjacent_blocks_merge_into_larger_quads() {
    let mut chunk = Chunk::new(AIR);
    set(&mut chunk, 1, 1, 1, GRANITE);
    set(&mut chunk, 2, 1, 1, GRANITE);
    let quads = extract_quads(&chunk, 1, is_opaque);
    // The shared face is hidden and the long sides merge: still six quads.
    assert_eq!(quads.total_quads(), 6);
}

#[test]
fn granite_keeps_its_faces_next_to_glass() {
    let mut chunk = Chunk::new(AIR);
    set(&mut chunk, 1, 1, 1, GRANITE);
    set(&mut chunk, 2, 1, 1, GLASS);
    let quads = extract_quads(&chunk, 1, is_opaque);
    let count = |block: u8| quads.faces.iter().map(|g| g.iter().filter(|q| q.block == block).count()).sum::<usize>();
    // The opaque block shows all six faces; the glass hides the one it
    // shares with the granite.
    assert_eq!(count(GRANITE), 6);
    assert_eq!(count(GLASS), 5);
    assert_eq!(quads.total_quads(), 11);
}

#[test]
fn trimesh_skips_traversable_quads() {
    let quad = |block: u8| QuadData { packed_xyz: (2 << 12) | (1 << 6) | 3, width: 1, height: 1, block, neighbor_block: AIR };
    let quads = ChunkQuads {
        faces: [vec![quad(GRANITE)], vec![quad(WATER)], vec![], vec![quad(GLASS)], vec![], vec![]],
    };
    let (vertices, indices) = quads_to_trimesh(&quads, is_traversable);
    assert_eq!(vertices.len(), 8);
    assert_eq!(indices, vec![[0, 1, 2], [2, 1, 3], [4, 5, 6], [6, 5, 7]]);
    // Up face (group 0) of the block at (3, 1, 2), then Left face (group 3).
    assert_eq!(vertices[0..4], [[3, 2, 2], [3, 2, 3], [4, 2, 2], [4, 2, 3]]);
    assert_eq!(vertices[4..8], [[3, 1, 2], [3, 1, 3], [3, 2, 2], [3, 2, 3]]);
}

#[test]
fn quad_position_accessors() {
    let q = QuadData { packed_xyz: (61 << 12) | (7 << 6) | 33, width: 2, height: 3, block: GRANITE, neighbor_block: AIR };
    assert_eq!((q.x(), q.y(), q.z()), (33, 7, 61));
}

#[test]
fn total_quads_sums_faces() {
    let q = QuadData { packed_xyz: 0, width: 1, height: 1, block: GRANITE, neighbor_block: AIR };
    let quads = ChunkQuads { faces: [vec![q, q], vec![], vec![q], vec![], vec![q, q, q], vec![]] };
    assert_eq!(quads.total_quads(), 6);
    assert!(!quads.is_empty());
    let empty: ChunkQuads<u8> = ChunkQuads { faces: [vec![], vec![], vec![], vec![], vec![], vec![]] };
    assert!(empty.is_empty());
    assert_eq!(empty.total_quads(), 0);
}

#[test]
fn linearize_is_zxy_order() {
    assert_eq!(linearize(0, 0, 0), 0);
    assert_eq!(linearize(0, 0, 1), 1);
    assert_eq!(linearize(1, 0, 0), 64);
    assert_eq!(linearize(0, 1, 0), 4096);
    assert_eq!(pad_linearize(0, 0, 0), 1 + 64 + 4096);
    assert_eq!(linearize(63, 63, 63), CHUNKP_S3 - 1);
}

#[test]
fn lod_one_keeps_the_voxels() {
    let mut chunk = Chunk::new(AIR);
    set(&mut chunk, 10, 20, 30, GRANITE);
    assert_eq!(voxel_data_lod(&chunk, 1), chunk.data);
}

#[test]
fn lod_two_takes_the_first_solid_voxel_of_each_cell() {
    let mut chunk = Chunk::new(AIR);
    // Cell (1, 0, 2) at lod 2 covers chunk voxels x in 2..4, y in 0..2, z in 4..6.
    set(&mut chunk, 3, 1, 5, GLASS);
    set(&mut chunk, 2, 1, 4, GRANITE);
    let granite = chunk.palette.iter().position(|b| *b == GRANITE).unwrap() as u16;
    let v = voxel_data_lod(&chunk, 2);
    assert_eq!(v.len(), CHUNKP_S3);
    // The first solid voxel in x, y, z order is granite at (2, 1, 4).
    assert_eq!(v[pad_linearize(1, 0, 2)], granite);
    let solid = v.iter().filter(|id| **id != 0).count();
    assert_eq!(solid, 1);
}

#[test]
fn lod_cells_scan_x_then_y_then_z() {
    let mut chunk = Chunk::new(AIR);
    // Both in cell (0, 0, 0) at lod 4; (0, 3, 0) comes before (1, 0, 0).
    set(&mut chunk, 1, 0, 0, GRANITE);
    set(&mut chunk, 0, 3, 0, GLASS);
    let glass = chunk.palette.iter().position(|b| *b == GLASS).unwrap() as u16;
    let v = voxel_data_lod(&chunk, 4);
    assert_eq!(v[pad_linearize(0, 0, 0)], glass);
}

#[test]
fn lod_shrinks_the_mesh() {
    let mut chunk = Chunk::new(AIR);
    set(&mut chunk, 4, 4, 4, GRANITE);
    set(&mut chunk, 5, 5, 5, GRANITE);
    let quads = extract_quads(&chunk, 2, is_opaque);
    // At lod 2 both blocks fall into one cell: a single voxel, six quads.
    assert_eq!(quads.total_quads(), 6);
}

#[test]
fn any_level_of_detail_is_accepted() {
    let mut chunk = Chunk::new(AIR);
    set(&mut chunk, 40, 3, 7, GLASS);
    set(&mut chunk, 9, 50, 60, GRANITE);
    let granite = chunk.palette.iter().position(|b| *b == GRANITE).unwrap() as u16;
    // One cell covers the whole chunk; its first solid voxel in x order is the granite.
    let v = voxel_data_lod(&chunk, usize::MAX);
    assert_eq!(v[pad_linearize(0, 0, 0)], granite);
    assert_eq!(v.iter().filter(|id| **id != 0).count(), 1);
    let quads = extract_quads(&chunk, usize::MAX, is_opaque);
    assert_eq!(quads.total_quads(), 6);
    assert!(generate_chunk_trimesh(&chunk, usize::MAX, is_opaque, is_traversable).is_some());
}
