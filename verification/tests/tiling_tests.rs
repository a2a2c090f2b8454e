use tower_tilings::{
    Basis, IntegerTiling, Material, Profile, Seed, TilingFace, TilingMesh, TowerTiling, Vec3,
    make_twelfth_root_basis,
};

fn tv(a: i64, b: i64, c: i64, d: i64) -> (i64, i64, i64, i64) {
    (a, b, c, d)
}

fn simple_tiling(seeds: Vec<Seed>, t1: (i64, i64, i64, i64), t2: (i64, i64, i64, i64)) -> IntegerTiling {
    IntegerTiling {
        basis: Basis::GraphPaper,
        translations: [t1, t2],
        seeds,
        profiles: Vec::new(),
        materials: Vec::new(),
    }
}

#[test]
fn twelfth_root_basis_values() {
    let basis = make_twelfth_root_basis();
    assert_eq!(basis.len(), 12);
    assert_eq!(basis[0], Vec3 { x: 1000000, y: 0, z: 0 });
    // half the square root of three, in micro-units
    assert_eq!(basis[1], Vec3 { x: 866025, y: 500000, z: 0 });
    assert_eq!(basis[3], Vec3 { x: 0, y: 1000000, z: 0 });
    assert_eq!(basis[6], Vec3 { x: -1000000, y: 0, z: 0 });
    assert_eq!(basis[9], Vec3 { x: 0, y: -1000000, z: 0 });
}

#[test]
fn coefficients_oppose_across_the_circle() {
    let coeffs = Basis::TwelfthRoot.get_coefficients();
    assert_eq!(coeffs.len(), 12);
    assert_eq!(coeffs[0], tv(1, 0, 0, 0));
    assert_eq!(coeffs[5], tv(0, -1, 0, 1));
    for d in 0..6 {
        let (a, b, c, dd) = coeffs[d];
        assert_eq!(coeffs[d + 6], (-a, -b, -c, -dd));
    }
}

#[test]
fn validate_rejects_bad_profile_reference() {
    let seeds = vec![Seed {
        position: tv(0, 0, 0, 0),
        faces: Some(vec![TilingFace { sides: 3, profile: Some(2), material: 0 }]),
    }];
    let tiling = simple_tiling(seeds, tv(1, 0, 0, 0), tv(0, 1, 0, 0));
    assert!(!tiling.validate());

    let good = vec![Seed {
        position: tv(0, 0, 0, 0),
        faces: Some(vec![TilingFace { sides: 3, profile: None, material: 0 }]),
    }];
    let tiling = simple_tiling(good, tv(1, 0, 0, 0), tv(0, 1, 0, 0));
    assert!(tiling.validate());
}

#[test]
fn projection_rejects_faraway_seed() {
    // A lattice point far out projects beyond the coordinate bound.
    let seeds = vec![Seed { position: tv(1000000000000, 0, 0, 0), faces: None }];
    let tiling = simple_tiling(seeds, tv(1, 0, 0, 0), tv(0, 1, 0, 0));
    assert!(tiling.validate());
    let mut tm = TilingMesh::new(tiling);
    assert!(tm.compute_mesh().is_err());
}

#[test]
fn two_seed_tiling() {
    // Two seeds whose translation vectors give each seed exactly two
    // locally present directions in the scanned range: the tracing stage
    // produces exactly 2 faces in the base mesh, each a triangle.
    let seeds = vec![
        Seed { position: tv(0, 0, 0, 0), faces: None },
        Seed { position: tv(100, 100, 100, 100), faces: None },
    ];
    let tiling = simple_tiling(seeds, tv(-1, 0, -1, 0), tv(-1, 0, 0, 0));
    assert!(tiling.validate());
    let mut tm = TilingMesh::new(tiling);
    tm.compute_mesh().unwrap();

    assert_eq!(tm.mesh.faces.len(), 2);
    assert_eq!(tm.mesh.face_vertex_list(0).len(), 3);
    assert_eq!(tm.mesh.face_vertex_list(1).len(), 3);
    // every traced vertex is a real mesh vertex
    for f in 0..2 {
        for idx in tm.mesh.face_vertex_list(f) {
            assert!(idx < tm.mesh.vertices.len());
        }
    }
    // each seed instantiates 9 lattice points; none coincide here
    assert_eq!(tm.cloud.len(), 18);
    assert_eq!(tm.mesh.vertices.len(), 18);
}

#[test]
fn four_triangles_when_every_seed_has_three_star_directions() {
    // With three locally present directions per seed the generator
    // traces one face per consecutive pair: two triangles per seed.
    let seeds = vec![
        Seed { position: tv(0, 0, 0, 0), faces: None },
        Seed { position: tv(-1, 0, 0, 0), faces: None },
    ];
    let tiling = simple_tiling(seeds, tv(-1, 0, -1, 0), tv(-1, 0, 1, 0));
    assert!(tiling.validate());
    let mut tm = TilingMesh::new(tiling);
    tm.compute_mesh().unwrap();

    assert_eq!(tm.mesh.faces.len(), 4);
    for f in 0..4 {
        assert_eq!(tm.mesh.face_vertex_list(f).len(), 3);
    }
}

#[test]
fn tower_single_triangle() {
    // A single triangular base with an empty profile: 2 cap faces,
    // 3 side quads and 1 top cap, and a triangulation of 9 triangles.
    let mut towers = TowerTiling::new();
    let base = vec![
        Vec3 { x: 0, y: 0, z: 0 },
        Vec3 { x: 1000000, y: 0, z: 0 },
        Vec3 { x: 0, y: 1000000, z: 0 },
    ];
    let profile: Vec<(i32, i32)> = Vec::new();
    towers.add_tower(&base, &profile, 0).unwrap();

    assert_eq!(towers.meshes.len(), 1);
    let mesh = &towers.meshes[0];
    assert_eq!(mesh.faces.len(), 6);

    let (positions, normals, indices) = mesh.triangulate();
    assert_eq!(indices.len(), 27);
    assert_eq!(positions.len(), normals.len());
    // 2 triangles + 3 quads + 1 triangle of corners
    assert_eq!(positions.len(), 3 + 3 + 3 * 4 + 3);
    // the raised top cap sits at the base height
    let top = mesh.get_face_positions(5);
    assert_eq!(top[0].z, 200000);
}

#[test]
fn tower_with_profile_has_layer_faces() {
    let mut towers = TowerTiling::new();
    let base = vec![
        Vec3 { x: 0, y: 0, z: 0 },
        Vec3 { x: 1000000, y: 0, z: 0 },
        Vec3 { x: 0, y: 1000000, z: 0 },
    ];
    let profile = vec![(1, 1), (1, 1)];
    towers.add_tower(&base, &profile, 3).unwrap();
    let mesh = &towers.meshes[0];
    // 2 caps + 3 sides + 1 top, then 2 layers of 3 quads and a final top
    assert_eq!(mesh.faces.len(), 2 + 3 + 1 + 2 * 3 + 1);
    assert_eq!(towers.materials[0], 3);
    // first layer, first corner: the raised cap corner (0, 0, 0.2) moved
    // an eighth of a unit toward the cap centroid (0.333.., 0.333.., 0.2)
    // and a tenth of a unit up: x and y gain 333333 * 125000 / 1000000,
    // z gains 100000
    assert_eq!(mesh.vertices[6].position, Vec3 { x: 41666, y: 41666, z: 300000 });
}

#[test]
fn degenerate_tower_base_fails() {
    let mut towers = TowerTiling::new();
    let base = vec![
        Vec3 { x: 0, y: 0, z: 0 },
        Vec3 { x: 1000000, y: 0, z: 0 },
        Vec3 { x: 2000000, y: 0, z: 0 },
    ];
    let profile: Vec<(i32, i32)> = Vec::new();
    assert!(towers.add_tower(&base, &profile, 0).is_err());
    assert_eq!(towers.meshes.len(), 0);
}

#[test]
fn make_towers_uses_declared_materials() {
    let seeds = vec![
        Seed {
            position: tv(0, 0, 0, 0),
            faces: Some(vec![TilingFace { sides: 3, profile: Some(0), material: 1 }]),
        },
        Seed { position: tv(100, 100, 100, 100), faces: None },
    ];
    let mut tiling = simple_tiling(seeds, tv(-1, 0, -1, 0), tv(-1, 0, 0, 0));
    tiling.profiles = vec![Profile { name: None, offsets: vec![(1, 1)] }];
    tiling.materials = vec![
        Material { base_color: Vec3 { x: 1000000, y: 0, z: 0 }, metallic: 0, roughness: 500000 },
        Material { base_color: Vec3 { x: 0, y: 1000000, z: 0 }, metallic: 0, roughness: 500000 },
    ];
    assert!(tiling.validate());
    let mut tm = TilingMesh::new(tiling);
    tm.compute_mesh().unwrap();
    let towers = tm.make_towers().unwrap();
    assert_eq!(towers.meshes.len(), 2);
    // face 0 was anchored to seed 0's declared face; face 1 gets defaults
    assert_eq!(towers.materials[0], 1);
    assert_eq!(towers.materials[1], 0);
    // the profiled tower has one extra layer of 3 quads and a top
    assert_eq!(towers.meshes[0].faces.len(), 2 + 3 + 1 + 3 + 1);
    assert_eq!(towers.meshes[1].faces.len(), 2 + 3 + 1);
}
