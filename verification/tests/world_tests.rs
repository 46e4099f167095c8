use riverbed::chunk::Chunk;
use riverbed::chunk_messages::ChunkDataMessage;
use riverbed::collision::{extent, first_blocked_layer, layer_blocked, Axis};
use riverbed::payload::{compress_chunk_payload, decompress_chunk_payload, PayloadError};
use riverbed::pos::{realm_collision_bit, ChunkPos, ColPos, Realm};
use riverbed::world_view::{column_out_of_range, columns_to_unload, loaded_columns, render_distance_valid, MAX_RENDER_DISTANCE};

fn col(x: i32, z: i32) -> ColPos {
    ColPos { x, z, realm: Realm(0) }
}

// ---------------------------------------------------------------------------
// Payloads
// ---------------------------------------------------------------------------

#[test]
fn payload_round_trip() {
    let mut data = Vec::new();
    for i in 0..5000u32 {
        data.push((i % 7) as u8);
    }
    let packed = compress_chunk_payload(&data).unwrap();
    assert_ne!(packed, data);
    assert!(packed.len() < data.len());
    // The uncompressed length is the little-endian size prefix.
    assert_eq!(packed[0..4], 5000u32.to_le_bytes());
    assert_eq!(decompress_chunk_payload(&packed).unwrap(), data);
}

#[test]
fn empty_payload_round_trip() {
    let packed = compress_chunk_payload(&[]).unwrap();
    assert_eq!(decompress_chunk_payload(&packed).unwrap(), Vec::<u8>::new());
}

#[test]
fn short_or_corrupt_payload_is_refused() {
    assert_eq!(decompress_chunk_payload(&[1, 2, 3]), Err(PayloadError::Decompression));
    assert_eq!(decompress_chunk_payload(&[]), Err(PayloadError::Decompression));
    // A size prefix promising bytes that the block does not hold.
    assert_eq!(decompress_chunk_payload(&[100, 0, 0, 0, 0xff, 0xff]), Err(PayloadError::Decompression));
}

#[test]
fn chunk_message_starts_empty() {
    let m: ChunkDataMessage<u8> = ChunkDataMessage::default();
    assert_eq!(m.tick, 0);
    assert_eq!(m.chunks.len(), 0);
    let mut m = m;
    m.tick = 3;
    m.chunks.insert(ChunkPos { x: 0, y: 1, z: 2, realm: Realm(0) }, Chunk::new(0u8));
    assert_eq!(m.chunks.len(), 1);
    assert!(m.chunks.contains_key(&ChunkPos { x: 0, y: 1, z: 2, realm: Realm(0) }));
}

// ---------------------------------------------------------------------------
// Client world view
// ---------------------------------------------------------------------------

#[test]
fn render_distance_bounds() {
    assert!(!render_distance_valid(0));
    assert!(render_distance_valid(1));
    assert!(render_distance_valid(MAX_RENDER_DISTANCE));
    assert!(!render_distance_valid(MAX_RENDER_DISTANCE + 1));
    assert!(!render_distance_valid(-4));
}

#[test]
fn columns_out_of_range() {
    let player = col(0, 0);
    assert!(!column_out_of_range(&col(3, -3), &player, 3));
    assert!(column_out_of_range(&col(4, 0), &player, 3));
    assert!(column_out_of_range(&col(0, -4), &player, 3));
    assert!(column_out_of_range(&ColPos { x: 0, z: 0, realm: Realm(1) }, &player, 3));
}

#[test]
fn unloading_keeps_order() {
    let loaded = vec![col(0, 0), col(5, 0), col(1, 1), col(-6, 2), col(2, 9)];
    assert_eq!(columns_to_unload(&loaded, &col(0, 0), 4), vec![col(5, 0), col(-6, 2), col(2, 9)]);
    assert!(columns_to_unload(&loaded, &col(0, 0), 10).is_empty());
}

#[test]
fn loaded_columns_are_distinct() {
    let chunks = vec![
        ChunkPos { x: 1, y: 0, z: 1, realm: Realm(0) },
        ChunkPos { x: 1, y: 5, z: 1, realm: Realm(0) },
        ChunkPos { x: 2, y: 0, z: 1, realm: Realm(0) },
        ChunkPos { x: 1, y: 2, z: 1, realm: Realm(0) },
        ChunkPos { x: 1, y: 0, z: 1, realm: Realm(3) },
    ];
    assert_eq!(loaded_columns(&chunks), vec![col(1, 1), col(2, 1), ColPos { x: 1, z: 1, realm: Realm(3) }]);
}

#[test]
fn realm_collision_bits() {
    assert_eq!(realm_collision_bit(Realm(0)), 2);
    assert_eq!(realm_collision_bit(Realm(1)), 4);
    assert_eq!(realm_collision_bit(Realm(30)), 1 << 31);
}

// ---------------------------------------------------------------------------
// Voxel collision sweeps
// ---------------------------------------------------------------------------

#[test]
fn extents_follow_the_motion() {
    assert_eq!(extent(2, 5, true), vec![2, 3, 4, 5]);
    assert_eq!(extent(5, 2, false), vec![5, 4, 3, 2]);
    assert_eq!(extent(-1, -1, false), vec![-1]);
    assert_eq!(extent(3, 3, true), vec![3]);
    assert!(extent(5, 2, true).is_empty());
    assert!(extent(2, 5, false).is_empty());
    assert_eq!(extent(i32::MAX - 1, i32::MAX, true), vec![i32::MAX - 1, i32::MAX]);
}

/// A floor of solid blocks at y = 0 and a wall at x = 4.
fn floor_and_wall(x: i32, y: i32, _z: i32) -> bool {
    y == 0 || x == 4
}

#[test]
fn footprint_hits_the_floor() {
    let xs = vec![1, 2];
    let zs = vec![1, 2];
    assert!(layer_blocked(Axis::Y, 0, &xs, &zs, &floor_and_wall));
    assert!(!layer_blocked(Axis::Y, 1, &xs, &zs, &floor_and_wall));
    assert!(!layer_blocked(Axis::Y, 0, &vec![], &zs, &floor_and_wall));
}

#[test]
fn sweep_stops_at_the_first_solid_layer() {
    // Falling from y = 5 to y = -2 over the floor.
    let layers = extent(5, -2, false);
    let xs = vec![1];
    let zs = vec![1, 2];
    assert_eq!(first_blocked_layer(Axis::Y, &layers, &xs, &zs, &floor_and_wall), Some(0));
    // Moving along x into the wall; the starting layer is never tested.
    let layers = extent(4, 8, true);
    assert_eq!(first_blocked_layer(Axis::X, &layers, &vec![1], &vec![1], &floor_and_wall), None);
    let layers = extent(1, 8, true);
    assert_eq!(first_blocked_layer(Axis::X, &layers, &vec![1], &vec![1], &floor_and_wall), Some(4));
    // Moving along z in open air.
    let layers = extent(0, 10, true);
    assert_eq!(first_blocked_layer(Axis::Z, &layers, &vec![1], &vec![2], &floor_and_wall), None);
    assert_eq!(first_blocked_layer(Axis::Z, &layers, &vec![4], &vec![2], &floor_and_wall), Some(1));
}
