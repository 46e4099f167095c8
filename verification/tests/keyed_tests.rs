use riverbed::chunk::{pad_linearize, Chunk, CHUNKP_S3};
use riverbed::greedy::{quads_from_mesh, transparency_flags};
use riverbed::keyed::{KeySet, KeyedVec};

#[test]
fn keyed_vec_keeps_insertion_order() {
    let mut m: KeyedVec<u64, &str> = KeyedVec::new();
    assert_eq!(m.len(), 0);
    m.insert(5, "five");
    m.insert(2, "two");
    m.insert(9, "nine");
    m.insert(2, "deux");
    assert_eq!(m.len(), 3);
    assert_eq!(*m.entry_at(0), (5, "five"));
    assert_eq!(*m.entry_at(1), (2, "deux"));
    assert_eq!(m.index_of(&9), Some(2));
    assert_eq!(m.index_of(&7), None);
    assert_eq!(m.get(&2), Some(&"deux"));
    assert!(m.contains_key(&5));
    *m.get_mut(&5).unwrap() = "cinq";
    assert_eq!(m.get(&5), Some(&"cinq"));
    assert!(m.get_mut(&6).is_none());
    *m.value_at_mut(2) = "neuf";
    assert_eq!(m.get(&9), Some(&"neuf"));
    assert_eq!(m.remove(&2), Some("deux"));
    assert_eq!(m.remove(&2), None);
    assert_eq!(*m.entry_at(0), (5, "cinq"));
    assert_eq!(*m.entry_at(1), (9, "neuf"));
    assert_eq!(m.len(), 2);
}

#[test]
fn key_set_insert_and_remove() {
    let mut s: KeySet<u64> = KeySet::new();
    assert!(s.insert(3));
    assert!(s.insert(1));
    assert!(!s.insert(3));
    assert_eq!(s.len(), 2);
    assert_eq!((s.item_at(0), s.item_at(1)), (3, 1));
    assert!(s.contains(&1));
    assert!(s.remove(&3));
    assert!(!s.remove(&3));
    assert!(!s.contains(&3));
    assert_eq!(s.len(), 1);
    assert_eq!(s.item_at(0), 1);
}

#[test]
fn chunk_well_formedness() {
    let mut chunk = Chunk::new(0u8);
    assert!(chunk.is_well_formed());
    assert_eq!(chunk.data.len(), CHUNKP_S3);
    chunk.data[pad_linearize(2, 2, 2)] = 1;
    assert!(!chunk.is_well_formed());
    chunk.palette.push(7);
    assert!(chunk.is_well_formed());
    chunk.data.pop();
    assert!(!chunk.is_well_formed());
    let empty: Chunk<u8> = Chunk { palette: vec![], data: vec![0; CHUNKP_S3] };
    assert!(!empty.is_well_formed());
}

#[test]
fn air_is_never_transparent() {
    // Palette: air, stone (opaque), glass (not opaque).
    let palette = vec![0u8, 1, 2];
    let flags = transparency_flags(&palette, &|b: &u8| *b == 1);
    assert_eq!(flags, vec![false, false, true]);
}

#[test]
fn quads_from_a_handmade_mesh() {
    let mut voxels = vec![0u16; CHUNKP_S3];
    voxels[pad_linearize(1, 1, 1)] = 1;
    let palette = vec![0u8, 9];
    // An Up quad (group 0) over the block at (1, 1, 1): x = 1, y = 2, z = 1,
    // 1 x 1, voxel 1; its neighbor lies at padded (2, 3, 2), which is air.
    let quad: u64 = (1 << 32) | (1 << 24) | (1 << 18) | (1 << 12) | (2 << 6) | 1;
    let mesh = vec![vec![quad], vec![], vec![], vec![], vec![], vec![]];
    let quads = quads_from_mesh(&mesh, &voxels, &palette);
    assert_eq!(quads.total_quads(), 1);
    let q = quads.faces[0][0];
    assert_eq!((q.x(), q.y(), q.z()), (1, 2, 1));
    assert_eq!((q.width, q.height), (1, 1));
    assert_eq!((q.block, q.neighbor_block), (9, 0));
    assert_eq!(q.packed_xyz, (1 << 12) | (2 << 6) | 1);
}
