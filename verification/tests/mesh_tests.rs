use tower_tilings::{Mesh, MeshError, Vec3, SCALE};

fn v(x: i64, y: i64, z: i64) -> Vec3 {
    Vec3 { x, y, z }
}

#[test]
fn single_triangle() {
    let mut mesh = Mesh::new();
    let pos_a = v(0, 0, 0);
    let pos_b = v(1000000, 0, 0);
    let pos_c = v(0, 1000000, 0);
    let a = mesh.add_vertex(pos_a);
    let b = mesh.add_vertex(pos_b);
    let c = mesh.add_vertex(pos_c);
    mesh.add_face(&vec![a, b, c]);

    // Make sure the vertices were added properly
    assert_eq!(mesh.vertices.len(), 3);
    assert_eq!(mesh.vertices[0].position, pos_a);
    assert_eq!(mesh.vertices[1].position, pos_b);
    assert_eq!(mesh.vertices[2].position, pos_c);

    assert_eq!(mesh.vertices[0].half_edge, Some(0));
    assert_eq!(mesh.vertices[1].half_edge, Some(1));
    assert_eq!(mesh.vertices[2].half_edge, Some(2));

    // Make sure the edges were added properly
    assert_eq!(mesh.half_edges.len(), 3);
    let ab = &mesh.half_edges[0];
    assert_eq!(ab.face, Some(0));
    assert_eq!(ab.from_vertex, 0);
    assert_eq!(ab.next, Some(1));
    assert_eq!(ab.previous, Some(2));
    assert_eq!(ab.twin, None);

    let bc = &mesh.half_edges[1];
    assert_eq!(bc.face, Some(0));
    assert_eq!(bc.from_vertex, 1);
    assert_eq!(bc.next, Some(2));
    assert_eq!(bc.previous, Some(0));
    assert_eq!(bc.twin, None);

    let ca = &mesh.half_edges[2];
    assert_eq!(ca.face, Some(0));
    assert_eq!(ca.from_vertex, 2);
    assert_eq!(ca.next, Some(0));
    assert_eq!(ca.previous, Some(1));
    assert_eq!(ca.twin, None);

    // We should have a single face. The normal has not
    // yet been computed, and it points to the first half edge
    // in the face we added
    assert_eq!(mesh.faces.len(), 1);
    assert_eq!(mesh.faces[0].half_edge, 0);
    assert!(mesh.faces[0].normal.is_none());
}

#[test]
fn face_loop_closure_runtime() {
    // Following `next` exactly (face degree) times returns to the start,
    // and `previous` undoes `next`, checked by walking the pointers.
    let mut mesh = Mesh::new();
    let a = mesh.add_vertex(v(0, 0, 0));
    let b = mesh.add_vertex(v(1000000, 0, 0));
    let c = mesh.add_vertex(v(1000000, 1000000, 0));
    let d = mesh.add_vertex(v(0, 1000000, 0));
    let f = mesh.add_face(&vec![a, b, c, d]);

    let start = mesh.faces[f].half_edge;
    let mut e = start;
    for _ in 0..4 {
        let succ = mesh.half_edges[e].next.unwrap();
        assert_eq!(mesh.half_edges[succ].previous, Some(e));
        e = succ;
    }
    assert_eq!(e, start);
}

#[test]
fn triangle_normal_is_unit_z() {
    let mut mesh = Mesh::new();
    let a = mesh.add_vertex(v(0, 0, 0));
    let b = mesh.add_vertex(v(1000000, 0, 0));
    let c = mesh.add_vertex(v(0, 1000000, 0));
    mesh.add_face(&vec![a, b, c]);
    mesh.compute_face_normals().unwrap();
    assert_eq!(mesh.faces[0].normal, Some(v(0, 0, SCALE)));
}

#[test]
fn normals_are_idempotent_and_near_unit() {
    // A tilted triangle: the normal must come out (almost) unit length,
    // and a second computation must change nothing.
    let mut mesh = Mesh::new();
    let a = mesh.add_vertex(v(0, 0, 0));
    let b = mesh.add_vertex(v(900000, 100000, 250000));
    let c = mesh.add_vertex(v(-150000, 1100000, 400000));
    mesh.add_face(&vec![a, b, c]);
    mesh.compute_face_normals().unwrap();
    let n1 = mesh.faces[0].normal.unwrap();

    let mag2 = (n1.x as i128) * (n1.x as i128) + (n1.y as i128) * (n1.y as i128) + (n1.z
        as i128) * (n1.z as i128);
    let unit2 = (SCALE as i128) * (SCALE as i128);
    let diff = if mag2 > unit2 { mag2 - unit2 } else { unit2 - mag2 };
    // within a hundredth of a percent of a unit, squared
    assert!(diff < unit2 / 1000, "normal magnitude^2 {} vs {}", mag2, unit2);

    mesh.compute_face_normals().unwrap();
    let n2 = mesh.faces[0].normal.unwrap();
    assert_eq!(n1, n2);
}

#[test]
fn degenerate_face_is_rejected() {
    // Three collinear points have no normal direction.
    let mut mesh = Mesh::new();
    let a = mesh.add_vertex(v(0, 0, 0));
    let b = mesh.add_vertex(v(1000000, 0, 0));
    let c = mesh.add_vertex(v(2000000, 0, 0));
    mesh.add_face(&vec![a, b, c]);
    assert_eq!(mesh.compute_face_normals(), Err(MeshError::DegenerateFace));
    // the mesh is untouched: the normal is still missing
    assert!(mesh.faces[0].normal.is_none());
}

#[test]
fn extrude_counts_and_offsets() {
    // Extruding an n-gon keeps the original face, adds n side quads and
    // one top face, and every top vertex sits exactly `dist` along the
    // normal above its original.
    let mut mesh = Mesh::new();
    let a = mesh.add_vertex(v(0, 0, 0));
    let b = mesh.add_vertex(v(1000000, 0, 0));
    let c = mesh.add_vertex(v(0, 1000000, 0));
    let f = mesh.add_face(&vec![a, b, c]);
    mesh.compute_face_normals().unwrap();

    let dist = 250000;
    let top = mesh.extrude(f, dist).unwrap();
    assert_eq!(mesh.faces.len(), 1 + 3 + 1);
    assert_eq!(top, 4);
    assert_eq!(mesh.vertices.len(), 6);
    // normal is (0, 0, SCALE): the offset is exactly (0, 0, dist)
    assert_eq!(mesh.vertices[3].position, v(0, 0, dist));
    assert_eq!(mesh.vertices[4].position, v(1000000, 0, dist));
    assert_eq!(mesh.vertices[5].position, v(0, 1000000, dist));
    // the original face is retained with its normal
    assert_eq!(mesh.faces[0].normal, Some(v(0, 0, SCALE)));
    // new faces have no normals yet
    assert!(mesh.faces[1].normal.is_none());
    assert!(mesh.faces[4].normal.is_none());
}

#[test]
fn extrude_profile_layers() {
    // One profile step: one duplicated layer, three side quads, one top.
    let mut mesh = Mesh::new();
    let a = mesh.add_vertex(v(0, 0, 0));
    let b = mesh.add_vertex(v(800000, 0, 0));
    let c = mesh.add_vertex(v(0, 800000, 0));
    let f = mesh.add_face(&vec![a, b, c]);
    mesh.compute_face_normals().unwrap();

    let profile = vec![(1, 2)];
    let top = mesh.extrude_profile(f, &profile).unwrap();
    assert_eq!(mesh.faces.len(), 1 + 3 + 1);
    assert_eq!(top, 4);
    assert_eq!(mesh.vertices.len(), 6);

    // centroid is (266666, 266666, 0); the radial accumulator is 1
    // (an eighth of a unit) and the height accumulator is 2 (two tenths).
    // For vertex a: direction to centroid is (266666, 266666, 0), so the
    // new position is a + (266666 * 125000 / 1000000, ..) + (0, 0, 200000).
    let expected_x = 266666i64 * 125000 / 1000000;
    assert_eq!(mesh.vertices[3].position, v(expected_x, expected_x, 200000));
}

#[test]
fn extrude_profile_empty_is_noop() {
    let mut mesh = Mesh::new();
    let a = mesh.add_vertex(v(0, 0, 0));
    let b = mesh.add_vertex(v(800000, 0, 0));
    let c = mesh.add_vertex(v(0, 800000, 0));
    let f = mesh.add_face(&vec![a, b, c]);
    mesh.compute_face_normals().unwrap();
    let profile: Vec<(i32, i32)> = Vec::new();
    let top = mesh.extrude_profile(f, &profile).unwrap();
    assert_eq!(top, f);
    assert_eq!(mesh.faces.len(), 1);
    assert_eq!(mesh.vertices.len(), 3);
}

#[test]
fn triangulate_quad_fan() {
    let mut mesh = Mesh::new();
    let a = mesh.add_vertex(v(0, 0, 0));
    let b = mesh.add_vertex(v(1000000, 0, 0));
    let c = mesh.add_vertex(v(1000000, 1000000, 0));
    let d = mesh.add_vertex(v(0, 1000000, 0));
    mesh.add_face(&vec![a, b, c, d]);
    mesh.compute_face_normals().unwrap();

    let (positions, normals, indices) = mesh.triangulate();
    assert_eq!(positions.len(), 4);
    assert_eq!(normals.len(), 4);
    assert_eq!(indices, vec![0, 1, 2, 0, 2, 3]);
    assert_eq!(positions[2], v(1000000, 1000000, 0));
    assert_eq!(normals[0], v(0, 0, SCALE));
    assert_eq!(normals[3], v(0, 0, SCALE));
}

#[test]
fn triangulate_ngon_fan_indices() {
    let fan = Mesh::triangulate_ngon(6);
    assert_eq!(fan, vec![0, 1, 2, 0, 2, 3, 0, 3, 4, 0, 4, 5]);
}

#[test]
fn sliver_face_is_rejected() {
    // A face whose cross product is only a couple of micro-units of area:
    // the truncating normalization could not produce anything close to a
    // unit normal, so the face is rejected as degenerate instead of
    // writing a corrupt normal.
    let mut mesh = Mesh::new();
    let a = mesh.add_vertex(v(0, 0, 1));
    let b = mesh.add_vertex(v(0, 0, 0));
    let c = mesh.add_vertex(v(1, -1, 0));
    mesh.add_face(&vec![a, b, c]);
    assert_eq!(mesh.compute_face_normals(), Err(MeshError::DegenerateFace));
    assert!(mesh.faces[0].normal.is_none());
}
