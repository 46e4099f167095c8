use riverbed::face::{Face, FaceSpecifier};
use riverbed::face_mesh::face_mesh_data;
use riverbed::greedy::QuadData;

const ALL_FACES: [Face; 6] = [Face::Left, Face::Down, Face::Back, Face::Right, Face::Up, Face::Front];

/// Compute the normal of a triangle using the cross product.
fn triangle_normal(v0: [f32; 3], v1: [f32; 3], v2: [f32; 3]) -> [f32; 3] {
    let e1 = [v1[0] - v0[0], v1[1] - v0[1], v1[2] - v0[2]];
    let e2 = [v2[0] - v0[0], v2[1] - v0[1], v2[2] - v0[2]];
    [
        e1[1] * e2[2] - e1[2] * e2[1],
        e1[2] * e2[0] - e1[0] * e2[2],
        e1[0] * e2[1] - e1[1] * e2[0],
    ]
}

fn normalize(v: [f32; 3]) -> [f32; 3] {
    let len = (v[0] * v[0] + v[1] * v[1] + v[2] * v[2]).sqrt();
    if len > 0.0 {
        [v[0] / len, v[1] / len, v[2] / len]
    } else {
        v
    }
}

/// Corners of a 1x1 quad at the origin, as floats.
fn unit_quad_vertices(face: Face) -> [[f32; 3]; 4] {
    let c = face.quad_corners(0, 0, 0, 1, 1);
    c.map(|v| [v[0] as f32, v[1] as f32, v[2] as f32])
}

#[test]
fn test_winding_order_produces_correct_outward_normals() {
    let mut failures = Vec::new();

    for face in ALL_FACES {
        let verts = unit_quad_vertices(face);
        let (tri1_indices, _tri2_indices) = face.triangle_indices(0);

        let v0 = verts[tri1_indices[0] as usize];
        let v1 = verts[tri1_indices[1] as usize];
        let v2 = verts[tri1_indices[2] as usize];

        let computed_normal = normalize(triangle_normal(v0, v1, v2));

        let expected_normal: [f32; 3] = match face {
            Face::Right => [1.0, 0.0, 0.0],
            Face::Left => [-1.0, 0.0, 0.0],
            Face::Up => [0.0, 1.0, 0.0],
            Face::Down => [0.0, -1.0, 0.0],
            Face::Front => [0.0, 0.0, 1.0],
            Face::Back => [0.0, 0.0, -1.0],
        };

        let dot = computed_normal[0] * expected_normal[0]
            + computed_normal[1] * expected_normal[1]
            + computed_normal[2] * expected_normal[2];

        if dot < 0.99 {
            failures.push(format!(
                "Face {:?}: computed normal {:?} does not match expected {:?} (dot product: {})",
                face, computed_normal, expected_normal, dot
            ));
        }
    }

    if !failures.is_empty() {
        panic!("Winding order issues:\n{}", failures.join("\n"));
    }
}

#[test]
fn test_both_triangles_have_consistent_normals() {
    for face in ALL_FACES {
        let verts = unit_quad_vertices(face);
        let (tri1_indices, tri2_indices) = face.triangle_indices(0);

        let v0 = verts[tri1_indices[0] as usize];
        let v1 = verts[tri1_indices[1] as usize];
        let v2 = verts[tri1_indices[2] as usize];
        let normal1 = normalize(triangle_normal(v0, v1, v2));

        let v0 = verts[tri2_indices[0] as usize];
        let v1 = verts[tri2_indices[1] as usize];
        let v2 = verts[tri2_indices[2] as usize];
        let normal2 = normalize(triangle_normal(v0, v1, v2));

        let dot = normal1[0] * normal2[0] + normal1[1] * normal2[1] + normal1[2] * normal2[2];

        assert!(
            dot > 0.99,
            "Face {:?}: triangle normals are inconsistent. Triangle 1: {:?}, Triangle 2: {:?}",
            face,
            normal1,
            normal2
        );
    }
}

#[test]
fn test_face_n_matches_winding_normal() {
    for face in ALL_FACES {
        let verts = unit_quad_vertices(face);
        let (tri1_indices, _) = face.triangle_indices(0);

        let v0 = verts[tri1_indices[0] as usize];
        let v1 = verts[tri1_indices[1] as usize];
        let v2 = verts[tri1_indices[2] as usize];
        let computed_normal = normalize(triangle_normal(v0, v1, v2));

        let face_n = face.n();
        let expected = [face_n[0] as f32, face_n[1] as f32, face_n[2] as f32];

        let dot = computed_normal[0] * expected[0]
            + computed_normal[1] * expected[1]
            + computed_normal[2] * expected[2];

        assert!(
            dot > 0.99,
            "Face {:?}: winding normal {:?} does not match Face::n() {:?}",
            face,
            computed_normal,
            expected
        );
    }
}

#[test]
fn quad_winding_scales_with_quad_size() {
    // Both triangles of a 3x2 quad have cross product 6 * n().
    for face in ALL_FACES {
        let c = face.quad_corners(5, 7, 9, 3, 2);
        let (t1, t2) = face.triangle_indices(0);
        let n = face.n();
        for t in [t1, t2] {
            let a = c[t[0] as usize].map(|v| v as i64);
            let b = c[t[1] as usize].map(|v| v as i64);
            let d = c[t[2] as usize].map(|v| v as i64);
            let e1 = [b[0] - a[0], b[1] - a[1], b[2] - a[2]];
            let e2 = [d[0] - a[0], d[1] - a[1], d[2] - a[2]];
            let cross = [
                e1[1] * e2[2] - e1[2] * e2[1],
                e1[2] * e2[0] - e1[0] * e2[2],
                e1[0] * e2[1] - e1[1] * e2[0],
            ];
            assert_eq!(cross, [6 * n[0] as i64, 6 * n[1] as i64, 6 * n[2] as i64], "face {:?}", face);
        }
    }
}

#[test]
fn face_normals_and_offsets() {
    assert_eq!(Face::Left.n(), [-1, 0, 0]);
    assert_eq!(Face::Down.n(), [0, -1, 0]);
    assert_eq!(Face::Back.n(), [0, 0, -1]);
    assert_eq!(Face::Right.n(), [1, 0, 0]);
    assert_eq!(Face::Up.n(), [0, 1, 0]);
    assert_eq!(Face::Front.n(), [0, 0, 1]);

    assert_eq!(Face::Left.quad_to_block(), [-1, 0, 0]);
    assert_eq!(Face::Down.quad_to_block(), [0, -1, 0]);
    assert_eq!(Face::Back.quad_to_block(), [0, 0, -1]);
    assert_eq!(Face::Right.quad_to_block(), [0, 0, 0]);
    assert_eq!(Face::Up.quad_to_block(), [0, 0, 0]);
    assert_eq!(Face::Front.quad_to_block(), [-1, 0, 0]);
}

#[test]
fn opposite_is_an_involution() {
    assert_eq!(Face::Left.opposite(), Face::Right);
    assert_eq!(Face::Down.opposite(), Face::Up);
    assert_eq!(Face::Back.opposite(), Face::Front);
    for face in ALL_FACES {
        assert_ne!(face.opposite(), face);
        assert_eq!(face.opposite().opposite(), face);
        let n = face.n();
        let m = face.opposite().n();
        assert_eq!([-n[0], -n[1], -n[2]], m);
    }
}

#[test]
fn specifiers_go_from_specific_to_all() {
    assert_eq!(Face::Up.specifiers(), vec![FaceSpecifier::Specific(Face::Up), FaceSpecifier::All]);
    assert_eq!(
        Face::Down.specifiers(),
        vec![FaceSpecifier::Specific(Face::Down), FaceSpecifier::Specific(Face::Up), FaceSpecifier::All]
    );
    for face in [Face::Left, Face::Right, Face::Front, Face::Back] {
        assert_eq!(face.specifiers(), vec![FaceSpecifier::Specific(face), FaceSpecifier::Side, FaceSpecifier::All]);
    }
}

#[test]
fn mesher_group_numbering() {
    assert_eq!(Face::from_u8(0), Face::Up);
    assert_eq!(Face::from_u8(1), Face::Down);
    assert_eq!(Face::from_u8(2), Face::Right);
    assert_eq!(Face::from_u8(3), Face::Left);
    assert_eq!(Face::from_u8(4), Face::Front);
    assert_eq!(Face::from_u8(5), Face::Back);
    assert_eq!(Face::from_usize(4), Face::Front);
}

#[test]
fn triangle_indices_from_base() {
    assert_eq!(Face::Up.triangle_indices(8), ([8, 9, 10], [10, 9, 11]));
}

#[test]
fn vertices_packed_exact_values() {
    // Up face of a 2x3 quad at x = 1, y = 2, z = 3, full detail.
    let xyz: u32 = (3 << 12) | (2 << 6) | 1;
    let v = Face::Up.vertices_packed(xyz, 2, 3, 1);
    let pack = |x: u32, y: u32, z: u32, u: u32, w: u32| (w << 24) | (u << 18) | (z << 12) | (y << 6) | x;
    assert_eq!(v, [pack(3, 2, 6, 2, 3), pack(3, 2, 3, 2, 0), pack(1, 2, 6, 0, 3), pack(1, 2, 3, 0, 0)]);

    // Left face, scaled by a level of detail of 2.
    let v = Face::Left.vertices_packed(xyz, 1, 1, 2);
    let base = 2 * xyz;
    assert_eq!(
        v,
        [
            (1 << 24) | (1 << 18) | base,
            (1 << 24) | (base + (2 << 12)),
            (1 << 18) | (base + (2 << 6)),
            base + (2 << 12) + (2 << 6),
        ]
    );
}

#[test]
fn vertices_packed_fits_rejects_underflow() {
    // A Down quad at x = 0 would need x - w.
    assert!(!Face::Down.vertices_packed_fits(0, 1, 1, 1));
    assert!(Face::Down.vertices_packed_fits(1, 1, 1, 1));
    assert!(Face::Up.vertices_packed_fits(0, 1, 1, 1));
    assert!(!Face::Up.vertices_packed_fits(u32::MAX, 1, 1, 2));
}

#[test]
fn face_mesh_data_packs_every_quad() {
    let q = |packed_xyz: u32| QuadData { packed_xyz, width: 1u8, height: 2u8, block: 1u8, neighbor_block: 0u8 };
    let quads = vec![q(1), q((3 << 12) | 2)];
    let colors = vec![5, 6];
    let layers = vec![7, 8];
    // Group 0 is the Up face.
    let (data, indices) = face_mesh_data(0, &quads, &colors, &layers, 1);
    assert_eq!(data.len(), 8);
    let v0 = Face::Up.vertices_packed(1, 1, 2, 1);
    let v1 = Face::Up.vertices_packed((3 << 12) | 2, 1, 2, 1);
    let info0 = (5 << 15) | (7 << 3);
    let info1 = (6 << 15) | (8 << 3);
    for k in 0..4 {
        assert_eq!(data[k], [v0[k], info0]);
        assert_eq!(data[4 + k], [v1[k], info1]);
    }
    assert_eq!(indices, vec![2, 0, 1, 1, 3, 2, 6, 4, 5, 5, 7, 6]);

    // The face index is part of the info word.
    let (data, _) = face_mesh_data(5, &quads, &colors, &layers, 1);
    assert_eq!(data[0][1], info0 | 5);
    let (data, indices) = face_mesh_data(3, &Vec::<QuadData<u8>>::new(), &vec![], &vec![], 2);
    assert!(data.is_empty() && indices.is_empty());
}

#[test]
fn texture_coordinates_ignore_position_and_lod() {
    let uv = |r: u32| ((r >> 18) & 0x3f, r >> 24);
    for face in ALL_FACES {
        let a = face.vertices_packed((3 << 12) | (4 << 6) | 5, 2, 3, 1);
        let b = face.vertices_packed((1 << 12) | (2 << 6) | 2, 2, 3, 2);
        let uvs: Vec<(u32, u32)> = a.iter().map(|r| uv(*r)).collect();
        assert_eq!(uvs, b.iter().map(|r| uv(*r)).collect::<Vec<_>>(), "face {:?}", face);
        let (w, h) = match face {
            Face::Left | Face::Right => (3, 2),
            _ => (2, 3),
        };
        let mut sorted = uvs.clone();
        sorted.sort();
        assert_eq!(sorted, vec![(0, 0), (0, h), (w, 0), (w, h)], "face {:?}", face);
    }
}
