//! The tower builder: one independent solid mesh per tiling face.
//!
//! Each tower starts from a base polygon: the polygon reversed (a
//! downward-facing bottom cap) plus the polygon itself, raised by a fixed
//! base height, then optionally extruded through a profile.

use vstd::prelude::*;

use crate::gltf::{packed_vec3s, packed_indices, Gltf, GltfError, Primitive, material_bounded};
use crate::mesh::{
    cross_sq_of_triple, lemma_face_geometry, normal_of_triple, offset_along, Mesh, MeshError,
    HEIGHT_STEP, RADIAL_STEP,
};
use crate::tiling::Material;
use crate::vec3::{Vec3, MAX_COORD, SCALE, tdiv};

verus! {

/// The fixed height every tower's base is raised by: a fifth of a unit.
pub const BASE_HEIGHT: i64 = 200000;

/// Largest number of base vertices a tower may have.
pub const MAX_TOWER_BASE: usize = 100000000;

/// A base vertex far enough inside the coordinate bound that raising it
/// by `BASE_HEIGHT` cannot leave the bound.
pub open spec fn in_raise_bounds(p: Vec3) -> bool {
    &&& -MAX_COORD + BASE_HEIGHT <= p.x <= MAX_COORD - BASE_HEIGHT
    &&& -MAX_COORD + BASE_HEIGHT <= p.y <= MAX_COORD - BASE_HEIGHT
    &&& -MAX_COORD + BASE_HEIGHT <= p.z <= MAX_COORD - BASE_HEIGHT
}

/// The unit normal of the base polygon, from its first three vertices.
pub open spec fn raised_normal(base: Seq<Vec3>) -> Vec3 {
    normal_of_triple(base[0], base[1], base[2])
}

/// Vertex `k` of the base, raised by `BASE_HEIGHT` along the base normal.
pub open spec fn raised_point(base: Seq<Vec3>, k: int) -> Vec3 {
    offset_along(base[k], BASE_HEIGHT as int, raised_normal(base))
}

/// The whole raised top boundary of a tower: every base vertex raised.
pub open spec fn raised_seq(base: Seq<Vec3>) -> Seq<Vec3> {
    Seq::new(base.len(), |k: int| raised_point(base, k))
}

/// The unit normal of the raised cap, from its first three vertices.
pub open spec fn raised_cap_normal(base: Seq<Vec3>) -> Vec3 {
    normal_of_triple(raised_point(base, 0), raised_point(base, 1), raised_point(base, 2))
}

/// The `k`-th vertex of profile layer `s` of a tower (`s >= 1`): the
/// raised cap vertex moved toward the cap's centroid by the accumulated
/// radial steps and along the cap's normal by the accumulated height
/// steps.
pub open spec fn tower_layer_position(
    base: Seq<Vec3>,
    profile: Seq<(i32, i32)>,
    s: int,
    k: int,
) -> Vec3 {
    let rp = raised_seq(base);
    let p = rp[k];
    let c = Mesh::centroid_of(rp);
    let cdir = Vec3 { x: (c.x - p.x) as i64, y: (c.y - p.y) as i64, z: (c.z - p.z) as i64 };
    let nrm = raised_cap_normal(base);
    let dc = Mesh::acc_radial(profile, s) * (RADIAL_STEP as int);
    let dn = Mesh::acc_height(profile, s) * (HEIGHT_STEP as int);
    Vec3 {
        x: (p.x + tdiv(dc * cdir.x, SCALE as int) + tdiv(dn * nrm.x, SCALE as int)) as i64,
        y: (p.y + tdiv(dc * cdir.y, SCALE as int) + tdiv(dn * nrm.y, SCALE as int)) as i64,
        z: (p.z + tdiv(dc * cdir.z, SCALE as int) + tdiv(dn * nrm.z, SCALE as int)) as i64,
    }
}

/// A profile layer position of the mesh's raised cap equals the
/// base-level layer position whenever the cap's boundary and normal are
/// the raised ones.
proof fn lemma_layer_positions_match(base: Seq<Vec3>, profile: Seq<(i32, i32)>, m4: Mesh, top: int)
    requires
        3 <= base.len(),
        0 <= top < m4.faces@.len(),
        m4.face_degree(top) == base.len(),
        m4.face_positions(top) == raised_seq(base),
        m4.faces@[top].normal == Some(raised_cap_normal(base)),
    ensures
        forall|s: int, k: int|
            1 <= s && 0 <= k < base.len() ==> #[trigger] Mesh::profile_position(
                m4,
                top,
                profile,
                s,
                k,
            ) == tower_layer_position(base, profile, s, k),
{
    assert forall|s: int, k: int|
        1 <= s && 0 <= k < base.len() implies #[trigger] Mesh::profile_position(
        m4,
        top,
        profile,
        s,
        k,
    ) == tower_layer_position(base, profile, s, k) by {
        assert(m4.face_positions(top)[k] == raised_seq(base)[k]);
        assert(Mesh::center_direction(m4, top, k) == ({
            let rp = raised_seq(base);
            let p = rp[k];
            let c = Mesh::centroid_of(rp);
            Vec3 { x: (c.x - p.x) as i64, y: (c.y - p.y) as i64, z: (c.z - p.z) as i64 }
        }));
    }
}

/// The conditions under which building a tower with an empty profile
/// succeeds: the base is small enough for the arenas, both caps and every
/// raised side quad and the raised cap are clear of the sliver threshold
/// (cross product at least one `SCALE` of area long), and the raise stays
/// within the coordinate bound.
pub open spec fn tower_base_ok(base: Seq<Vec3>) -> bool {
    let n = base.len() as int;
    &&& n <= MAX_TOWER_BASE
    &&& cross_sq_of_triple(base[n - 1], base[n - 2], base[n - 3]) >= SCALE * SCALE
    &&& cross_sq_of_triple(base[0], base[1], base[2]) >= SCALE * SCALE
    &&& forall|k: int| 0 <= k < n ==> in_raise_bounds(#[trigger] base[k])
    &&& forall|j: int|
        0 <= j < n ==> cross_sq_of_triple(
            #[trigger] base[j],
            base[(j + 1) % n],
            raised_point(base, (j + 1) % n),
        ) >= SCALE * SCALE
    &&& cross_sq_of_triple(
        raised_point(base, 0),
        raised_point(base, 1),
        raised_point(base, 2),
    ) >= SCALE * SCALE
}

/// When every side quad's corner triple and the raised cap's triple are
/// clear of the sliver threshold, no raised face is degenerate.
proof fn lemma_raised_faces_nondegenerate(bs: Seq<Vec3>, m3: Mesh)
    requires
        3 <= bs.len(),
        m3.wf(),
        m3.faces@.len() == 3 + bs.len(),
        forall|j: int|
            0 <= j < bs.len() ==> #[trigger] m3.face_positions(2 + j)[0] == bs[j]
                && m3.face_positions(2 + j)[1] == bs[(j + 1) % (bs.len() as int)]
                && m3.face_positions(2 + j)[2] == raised_point(bs, (j + 1) % (bs.len() as int)),
        forall|i: int|
            0 <= i < bs.len() ==> #[trigger] m3.face_positions(2 + bs.len() as int)[i]
                == raised_point(bs, i),
        forall|j: int|
            0 <= j < bs.len() ==> cross_sq_of_triple(
                #[trigger] bs[j],
                bs[(j + 1) % (bs.len() as int)],
                raised_point(bs, (j + 1) % (bs.len() as int)),
            ) >= SCALE * SCALE,
        cross_sq_of_triple(raised_point(bs, 0), raised_point(bs, 1), raised_point(bs, 2))
            >= SCALE * SCALE,
    ensures
        forall|f: int| 2 <= f < m3.faces@.len() ==> !(#[trigger] m3.face_degenerate(f)),
{
    let n = bs.len() as int;
    assert forall|f: int| 2 <= f < m3.faces@.len() implies !(#[trigger] m3.face_degenerate(
        f,
    )) by {
        lemma_face_geometry(m3, f);
        if f < 2 + n {
            let j = f - 2;
            assert(m3.face_positions(2 + j)[0] == bs[j]);
        } else {
            assert(m3.face_positions(2 + n)[0] == raised_point(bs, 0));
            assert(m3.face_positions(2 + n)[1] == raised_point(bs, 1));
            assert(m3.face_positions(2 + n)[2] == raised_point(bs, 2));
        }
    }
}

/// Raising an inner point along a unit-bounded direction stays in bounds.
proof fn lemma_raise_in_bounds(p: Vec3, nrm: Vec3)
    requires
        in_raise_bounds(p),
        nrm.unit_bounds(),
    ensures
        offset_along(p, BASE_HEIGHT as int, nrm).in_bounds(),
{
    lemma_height_step_bounded(nrm.x as int);
    lemma_height_step_bounded(nrm.y as int);
    lemma_height_step_bounded(nrm.z as int);
}

/// One raised component moves by at most `BASE_HEIGHT`.
proof fn lemma_height_step_bounded(c: int)
    requires
        -SCALE <= c <= SCALE,
    ensures
        -BASE_HEIGHT <= tdiv((BASE_HEIGHT as int) * c, SCALE as int) <= BASE_HEIGHT,
{
    crate::vec3::lemma_mul_le((BASE_HEIGHT as int), c, BASE_HEIGHT as int, SCALE as int);
    if (BASE_HEIGHT as int) * c >= 0 {
        vstd::arithmetic::div_mod::lemma_div_is_ordered(
            (BASE_HEIGHT as int) * c,
            (BASE_HEIGHT as int) * (SCALE as int),
            SCALE as int,
        );
        vstd::arithmetic::div_mod::lemma_div_by_multiple(BASE_HEIGHT as int, SCALE as int);
        vstd::arithmetic::div_mod::lemma_div_pos_is_pos((BASE_HEIGHT as int) * c, SCALE as int);
        assert((BASE_HEIGHT as int) * (SCALE as int) == (SCALE as int) * (BASE_HEIGHT as int));
    } else {
        vstd::arithmetic::div_mod::lemma_div_is_ordered(
            -((BASE_HEIGHT as int) * c),
            (BASE_HEIGHT as int) * (SCALE as int),
            SCALE as int,
        );
        vstd::arithmetic::div_mod::lemma_div_by_multiple(BASE_HEIGHT as int, SCALE as int);
        vstd::arithmetic::div_mod::lemma_div_pos_is_pos(
            -((BASE_HEIGHT as int) * c),
            SCALE as int,
        );
        assert((BASE_HEIGHT as int) * (SCALE as int) == (SCALE as int) * (BASE_HEIGHT as int));
    }
}

/// The shape `add_tower` gives one tower mesh built over `base` with an
/// `ell`-step profile: the reversed bottom cap, the base cap, the raised
/// side quads and cap, and the profile layers.
pub open spec fn tower_built_over(m: Mesh, base: Seq<Vec3>, ell: int) -> bool {
    let n = base.len() as int;
    &&& m.faces@.len() == TowerTiling::tower_face_count(n, ell)
    &&& m.vertices@.len() == 2 * n + ell * n
    &&& forall|i: int| 0 <= i < n ==> (#[trigger] m.vertices@[i]).position == base[i]
    &&& m.face_degree(0) == n
    &&& forall|i: int| 0 <= i < n ==> #[trigger] m.face_positions(0)[i] == base[n - 1 - i]
    &&& m.face_degree(1) == n
    &&& forall|i: int| 0 <= i < n ==> #[trigger] m.face_positions(1)[i] == base[i]
    &&& forall|f: int| 2 <= f < 2 + n ==> #[trigger] m.face_degree(f) == 4
    &&& m.face_degree(2 + n) == n
    &&& forall|i: int|
        0 <= i < n ==> #[trigger] m.face_positions(2 + n)[i] == raised_point(base, i)
    &&& (ell >= 1 ==> forall|f: int|
        3 + n <= f < 3 + n + ell * n ==> #[trigger] m.face_degree(f) == 4)
    &&& (ell >= 1 ==> m.face_degree(3 + n + ell * n) == n)
}

/// The packed attribute and index data of a sequence of tower meshes, in
/// the order the asset writer emits it.
pub open spec fn packed_towers(meshes: Seq<Mesh>) -> Seq<u8>
    decreases meshes.len(),
{
    if meshes.len() == 0 {
        Seq::empty()
    } else {
        let m = meshes.last();
        let nf = m.faces@.len() as int;
        packed_towers(meshes.drop_last()) + packed_vec3s(m.tri_positions_upto(nf))
            + packed_vec3s(m.tri_normals_upto(nf)) + packed_indices(m.tri_indices_seq_upto(nf))
    }
}

/// The whole collection fits the asset writer's limits: the instance
/// translations fit the address space, and at every step each tower's
/// corner count is addressable by 32-bit indices and its packed bytes fit
/// behind what was already packed.
pub open spec fn towers_fit(meshes: Seq<Mesh>, translations: Seq<Vec3>) -> bool {
    &&& 12 * translations.len() <= usize::MAX
    &&& forall|i: int|
        0 <= i < meshes.len() ==> {
            let m = #[trigger] meshes[i];
            let nf = m.faces@.len() as int;
            &&& m.corners_upto(nf) <= u32::MAX
            &&& packed_vec3s(translations).len() + packed_towers(meshes.take(i)).len() + 24
                * m.corners_upto(nf) + 4 * m.tri_indices_upto(nf) <= usize::MAX
        }
}

/// The collection of tower meshes, with one material index per tower.
pub struct TowerTiling {
    pub meshes: Vec<Mesh>,
    pub materials: Vec<usize>,
}

impl TowerTiling {
    /// Every tower mesh is well formed, has at least one face, and has
    /// every face normal computed; there is one material index per tower.
    pub open spec fn wf(self) -> bool {
        &&& self.meshes@.len() == self.materials@.len()
        &&& forall|i: int| 0 <= i < self.meshes@.len() ==> (#[trigger] self.meshes@[i]).wf()
        &&& forall|i: int|
            0 <= i < self.meshes@.len() ==> (#[trigger] self.meshes@[i]).faces@.len() >= 1
        &&& forall|i: int, f: int|
            0 <= i < self.meshes@.len() && 0 <= f < self.meshes@[i].faces@.len() ==> (
            #[trigger] self.meshes@[i].faces@[f]).normal is Some
    }

    pub fn new() -> (r: TowerTiling)
        ensures
            r.wf(),
            r.meshes@.len() == 0,
            r.materials@.len() == 0,
    {
        TowerTiling { meshes: Vec::new(), materials: Vec::new() }
    }

    /// The number of faces a tower over an `n`-gon with an `ell`-step
    /// profile holds: the two base caps, the raised side quads and top,
    /// and one layer of side quads plus a top cap per profile step.
    pub open spec fn tower_face_count(n: int, ell: int) -> int {
        if ell == 0 {
            2 + n + 1
        } else {
            2 + n + 1 + ell * n + 1
        }
    }

    /// Builds the two cap faces of a tower over the base polygon and
    /// computes their normals. Succeeds whenever both caps are
    /// nondegenerate.
    #[verifier::rlimit(100)]
    #[verifier::spinoff_prover]
    fn build_caps(base: &Vec<Vec3>) -> (r: Result<Mesh, MeshError>)
        requires
            3 <= base@.len() <= MAX_TOWER_BASE,
            forall|i: int| 0 <= i < base@.len() ==> (#[trigger] base@[i]).in_bounds(),
        ensures
            ({
                let n = base@.len() as int;
                cross_sq_of_triple(base@[n - 1], base@[n - 2], base@[n - 3]) >= SCALE * SCALE
                    && cross_sq_of_triple(base@[0], base@[1], base@[2]) >= SCALE * SCALE
                    ==> r is Ok
            }),
            match r {
                Ok(m) => {
                    let n = base@.len() as int;
                    &&& m.wf()
                    &&& m.faces@.len() == 2
                    &&& m.half_edges@.len() == 2 * n
                    &&& m.vertices@.len() == n
                    &&& forall|i: int|
                        0 <= i < n ==> (#[trigger] m.vertices@[i]).position == base@[i]
                    &&& m.face_degree(0) == n
                    &&& forall|i: int|
                        0 <= i < n ==> #[trigger] m.face_positions(0)[i] == base@[n - 1 - i]
                    &&& m.face_degree(1) == n
                    &&& m.face_vertices(1) == Seq::new(n as nat, |i: int| i as usize)
                    &&& forall|i: int| 0 <= i < n ==> #[trigger] m.face_positions(1)[i] == base@[i]
                    &&& m.faces@[0].normal is Some
                    &&& m.faces@[1].normal == Some(raised_normal(base@))
                },
                Err(e) => e == MeshError::DegenerateFace,
            },
    {
        let ghost bs = base@;
        let n = base.len();
        let mut mesh = Mesh::new();

        let mut vertices: Vec<usize> = Vec::new();
        for i in 0..n
            invariant
                n == base@.len(),
                n <= MAX_TOWER_BASE,
                forall|q: int| 0 <= q < n ==> (#[trigger] base@[q]).in_bounds(),
                mesh.wf(),
                mesh.vertices@.len() == i,
                mesh.half_edges@.len() == 0,
                mesh.faces@.len() == 0,
                mesh.spans@.len() == 0,
                vertices@.len() == i,
                forall|q: int| 0 <= q < i ==> #[trigger] vertices@[q] == q,
                forall|q: int|
                    0 <= q < i ==> (#[trigger] mesh.vertices@[q]).position == base@[q],
        {
            let idx = mesh.add_vertex(base[i]);
            vertices.push(idx);
        }

        let mut vertices_reversed: Vec<usize> = Vec::new();
        for i in 0..n
            invariant
                n == base@.len(),
                vertices@.len() == n,
                forall|q: int| 0 <= q < n ==> #[trigger] vertices@[q] == q,
                vertices_reversed@.len() == i,
                forall|q: int|
                    0 <= q < i ==> #[trigger] vertices_reversed@[q] == (n - 1 - q) as usize,
        {
            vertices_reversed.push(vertices[n - 1 - i]);
        }

        // Bottom cap (reversed winding) and top-facing base cap.
        let _bottom = mesh.add_face(&vertices_reversed);
        let _top = mesh.add_face(&vertices);
        let ghost mesh1 = mesh;
        proof {
            assert(mesh1.face_vertices(0) == vertices_reversed@);
            assert(mesh1.face_vertices(1) == vertices@);
            assert(mesh1.face_vertices(1) =~= Seq::new(n as nat, |i: int| i as usize));
            assert forall|i: int| 0 <= i < n implies #[trigger] mesh1.face_positions(0)[i]
                == bs[n - 1 - i] by {
                assert(mesh1.face_vertices(0)[i] == (n - 1 - i) as usize);
            }
            assert forall|i: int| 0 <= i < n implies #[trigger] mesh1.face_positions(1)[i]
                == bs[i] by {
                assert(mesh1.face_vertices(1)[i] == i as usize);
            }
        }

        match mesh.compute_face_normals() {
            Ok(()) => {},
            Err(e) => {
                proof {
                    let f = choose|f: int|
                        0 <= f < mesh1.faces@.len() && (#[trigger] mesh1.faces@[f].normal)
                            is None && mesh1.face_degenerate(f);
                    lemma_face_geometry(mesh1, f);
                    assert(f == 0 || f == 1);
                }
                return Err(e);
            },
        }
        proof {
            crate::mesh::lemma_normals_preserve_boundaries(mesh1, mesh);
            lemma_face_geometry(mesh1, 1);
            assert(mesh.faces@[1].normal == Some(mesh1.computed_normal(1)));
            assert(mesh1.computed_normal(1) == raised_normal(bs));
        }
        Ok(mesh)
    }

    /// Extrudes the capped base upward by `BASE_HEIGHT`. Succeeds
    /// whenever the raise stays within the coordinate bound.
    #[verifier::rlimit(100)]
    #[verifier::spinoff_prover]
    fn raise_extrude(mesh: &mut Mesh, base: &Vec<Vec3>) -> (r: Result<(), MeshError>)
        requires
            3 <= base@.len() <= MAX_TOWER_BASE,
            forall|i: int| 0 <= i < base@.len() ==> (#[trigger] base@[i]).in_bounds(),
            old(mesh).wf(),
            old(mesh).faces@.len() == 2,
            old(mesh).half_edges@.len() == 2 * base@.len(),
            old(mesh).vertices@.len() == base@.len(),
            forall|i: int|
                0 <= i < base@.len() ==> (#[trigger] old(mesh).vertices@[i]).position == base@[i],
            old(mesh).face_degree(0) == base@.len(),
            forall|i: int|
                0 <= i < base@.len() ==> #[trigger] old(mesh).face_positions(0)[i] == base@[base@.len() - 1 - i],
            old(mesh).face_degree(1) == base@.len(),
            old(mesh).face_vertices(1) == Seq::new(base@.len() as nat, |i: int| i as usize),
            forall|i: int|
                0 <= i < base@.len() ==> #[trigger] old(mesh).face_positions(1)[i] == base@[i],
            old(mesh).faces@[0].normal is Some,
            old(mesh).faces@[1].normal == Some(raised_normal(base@)),
        ensures
            (forall|k: int| 0 <= k < base@.len() ==> in_raise_bounds(#[trigger] base@[k])) ==> r
                is Ok,
            match r {
                Ok(()) => {
                    let n = base@.len() as int;
                    let m = *final(mesh);
                    &&& m.wf()
                    &&& m.faces@.len() == 3 + n
                    &&& m.vertices@.len() == 2 * n
                    &&& forall|i: int|
                        0 <= i < n ==> (#[trigger] m.vertices@[i]).position == base@[i]
                    &&& m.faces@[0].normal is Some
                    &&& m.faces@[1].normal is Some
                    &&& forall|f: int|
                        2 <= f < 3 + n ==> (#[trigger] m.faces@[f]).normal is None
                    &&& m.face_degree(0) == n
                    &&& forall|i: int|
                        0 <= i < n ==> #[trigger] m.face_positions(0)[i] == base@[n - 1 - i]
                    &&& m.face_degree(1) == n
                    &&& forall|i: int| 0 <= i < n ==> #[trigger] m.face_positions(1)[i] == base@[i]
                    &&& forall|f: int| 2 <= f < 2 + n ==> #[trigger] m.face_degree(f) == 4
                    &&& m.face_degree(2 + n) == n
                    &&& forall|i: int|
                        0 <= i < n ==> #[trigger] m.face_positions(2 + n)[i] == raised_point(
                            base@,
                            i,
                        )
                    // the first three corners of each side quad
                    &&& forall|j: int|
                        0 <= j < n ==> #[trigger] m.face_positions(2 + j)[0] == base@[j]
                            && m.face_positions(2 + j)[1] == base@[(j + 1) % n]
                            && m.face_positions(2 + j)[2] == raised_point(base@, (j + 1) % n)
                },
                Err(e) => e == MeshError::CoordinateOverflow || e == MeshError::ArenaOverflow,
            },
    {
        let ghost bs = base@;
        let n = base.len();
        let ghost mesh2 = *mesh;

        match mesh.extrude(1, BASE_HEIGHT) {
            Ok(_) => {},
            Err(e) => {
                proof {
                    if forall|k: int| 0 <= k < n ==> in_raise_bounds(#[trigger] bs[k]) {
                        assert forall|k: int|
                            0 <= k < mesh2.face_degree(1) implies (#[trigger] offset_along(
                            mesh2.face_positions(1)[k],
                            BASE_HEIGHT as int,
                            mesh2.faces@[1].normal->0,
                        )).in_bounds() by {
                            assert(mesh2.face_positions(1)[k] == bs[k]);
                            assert(in_raise_bounds(bs[k]));
                            lemma_raise_in_bounds(bs[k], mesh2.faces@[1].normal->0);
                        }
                        assert(false);
                    }
                }
                return Err(e);
            },
        }
        proof {
            crate::mesh::lemma_face_boundary_frame(mesh2, *mesh, 0);
            crate::mesh::lemma_face_boundary_frame(mesh2, *mesh, 1);
            assert forall|f: int| 2 <= f < 2 + n implies #[trigger] mesh.face_degree(f)
                == 4 by {
                assert(mesh.face_degree(2 + (f - 2)) == 4);
            }
            assert forall|i: int| 0 <= i < n implies #[trigger] mesh.face_positions(
                2 + n,
            )[i] == raised_point(bs, i) by {
                assert(mesh.face_vertices(2 + n as int)[i] == (n + i) as usize);
                assert(mesh.vertices@[n + i].position == offset_along(
                    mesh2.face_positions(1)[i],
                    BASE_HEIGHT as int,
                    mesh2.faces@[1].normal->0,
                ));
            }
            assert forall|j: int| 0 <= j < n implies #[trigger] mesh.face_positions(2 + j)[0]
                == bs[j] && mesh.face_positions(2 + j)[1] == bs[(j + 1) % (n as int)]
                && mesh.face_positions(2 + j)[2] == raised_point(bs, (j + 1) % (n as int)) by {
                assert(mesh.face_vertices(2 + j) == Mesh::side_quad(mesh2.face_vertices(1),
                    n as int, j));
                assert(mesh.face_vertices(2 + j)[0] == mesh2.face_vertices(1)[j]);
                assert(mesh.face_vertices(2 + j)[1] == mesh2.face_vertices(1)[(j + 1) % (
                n as int)]);
                assert(mesh.face_vertices(2 + j)[2] == (n + (j + 1) % (n as int)) as usize);
                vstd::arithmetic::div_mod::lemma_mod_bound(j + 1, n as int);
                assert(mesh.vertices@[n + (j + 1) % (n as int)].position == offset_along(
                    mesh2.face_positions(1)[(j + 1) % (n as int)],
                    BASE_HEIGHT as int,
                    mesh2.faces@[1].normal->0,
                ));
            }
        }
        Ok(())
    }

    /// Raises the capped base by `BASE_HEIGHT` and computes the normals of
    /// the new side quads and top cap. Succeeds whenever the raise stays
    /// in bounds and no raised face is degenerate.
    #[verifier::rlimit(100)]
    fn raise_base(mesh: &mut Mesh, base: &Vec<Vec3>) -> (r: Result<(), MeshError>)
        requires
            3 <= base@.len() <= MAX_TOWER_BASE,
            forall|i: int| 0 <= i < base@.len() ==> (#[trigger] base@[i]).in_bounds(),
            old(mesh).wf(),
            old(mesh).faces@.len() == 2,
            old(mesh).half_edges@.len() == 2 * base@.len(),
            old(mesh).vertices@.len() == base@.len(),
            forall|i: int|
                0 <= i < base@.len() ==> (#[trigger] old(mesh).vertices@[i]).position == base@[i],
            old(mesh).face_degree(0) == base@.len(),
            forall|i: int|
                0 <= i < base@.len() ==> #[trigger] old(mesh).face_positions(0)[i] == base@[base@.len() - 1 - i],
            old(mesh).face_degree(1) == base@.len(),
            old(mesh).face_vertices(1) == Seq::new(base@.len() as nat, |i: int| i as usize),
            forall|i: int|
                0 <= i < base@.len() ==> #[trigger] old(mesh).face_positions(1)[i] == base@[i],
            old(mesh).faces@[0].normal is Some,
            old(mesh).faces@[1].normal == Some(raised_normal(base@)),
        ensures
            ({
                let n = base@.len() as int;
                (forall|k: int| 0 <= k < n ==> in_raise_bounds(#[trigger] base@[k])) && (forall|
                    j: int,
                |
                    0 <= j < n ==> cross_sq_of_triple(
                        #[trigger] base@[j],
                        base@[(j + 1) % n],
                        raised_point(base@, (j + 1) % n),
                    ) >= SCALE * SCALE) && cross_sq_of_triple(
                    raised_point(base@, 0),
                    raised_point(base@, 1),
                    raised_point(base@, 2),
                ) >= SCALE * SCALE ==> r is Ok
            }),
            match r {
                Ok(()) => {
                    let n = base@.len() as int;
                    let m = *final(mesh);
                    &&& m.wf()
                    &&& m.faces@.len() == 3 + n
                    &&& forall|f: int|
                        0 <= f < m.faces@.len() ==> (#[trigger] m.faces@[f]).normal is Some
                    &&& m.vertices@.len() == 2 * n
                    &&& forall|i: int|
                        0 <= i < n ==> (#[trigger] m.vertices@[i]).position == base@[i]
                    &&& m.face_degree(0) == n
                    &&& forall|i: int|
                        0 <= i < n ==> #[trigger] m.face_positions(0)[i] == base@[n - 1 - i]
                    &&& m.face_degree(1) == n
                    &&& forall|i: int| 0 <= i < n ==> #[trigger] m.face_positions(1)[i] == base@[i]
                    &&& forall|f: int| 2 <= f < 2 + n ==> #[trigger] m.face_degree(f) == 4
                    &&& m.face_degree(2 + n) == n
                    &&& forall|i: int|
                        0 <= i < n ==> #[trigger] m.face_positions(2 + n)[i] == raised_point(
                            base@,
                            i,
                        )
                    &&& m.face_positions(2 + n) == raised_seq(base@)
                    &&& m.faces@[2 + n].normal == Some(raised_cap_normal(base@))
                },
                Err(e) => e == MeshError::DegenerateFace || e == MeshError::CoordinateOverflow
                    || e == MeshError::ArenaOverflow,
            },
    {
        let ghost bs = base@;
        let n = base.len();

        match Self::raise_extrude(mesh, base) {
            Ok(()) => {},
            Err(e) => {
                return Err(e);
            },
        }
        let ghost mesh3 = *mesh;
        match mesh.compute_face_normals() {
            Ok(()) => {},
            Err(e) => {
                proof {
                    if (forall|j: int|
                        0 <= j < n ==> cross_sq_of_triple(
                            #[trigger] bs[j],
                            bs[(j + 1) % (n as int)],
                            raised_point(bs, (j + 1) % (n as int)),
                        ) >= SCALE * SCALE) && cross_sq_of_triple(
                        raised_point(bs, 0),
                        raised_point(bs, 1),
                        raised_point(bs, 2),
                    ) >= SCALE * SCALE {
                        lemma_raised_faces_nondegenerate(bs, mesh3);
                        let f = choose|f: int|
                            0 <= f < mesh3.faces@.len() && (#[trigger] mesh3.faces@[f].normal)
                                is None && mesh3.face_degenerate(f);
                        assert(2 <= f);
                        assert(false);
                    }
                }
                return Err(e);
            },
        }
        proof {
            crate::mesh::lemma_normals_preserve_boundaries(mesh3, *mesh);
            assert(mesh.face_positions(2 + n as int) =~= raised_seq(bs));
            lemma_face_geometry(mesh3, 2 + n as int);
            assert(mesh.faces@[2 + n as int].normal == Some(mesh3.computed_normal(2 + n as int)));
            assert(mesh3.face_positions(2 + n as int)[0] == raised_point(bs, 0));
            assert(mesh3.face_positions(2 + n as int)[1] == raised_point(bs, 1));
            assert(mesh3.face_positions(2 + n as int)[2] == raised_point(bs, 2));
            assert(mesh3.computed_normal(2 + n as int) == raised_cap_normal(bs));
        }
        Ok(())
    }

    /// Builds the raised base solid of one tower: the reversed bottom cap,
    /// the base cap, its normals, the raise by `BASE_HEIGHT` and the second
    /// normal pass. Succeeds whenever `tower_base_ok` holds of the base.
    fn build_raised_base(base: &Vec<Vec3>) -> (r: Result<Mesh, MeshError>)
        requires
            3 <= base@.len() <= MAX_TOWER_BASE,
            forall|i: int| 0 <= i < base@.len() ==> (#[trigger] base@[i]).in_bounds(),
        ensures
            tower_base_ok(base@) ==> r is Ok,
            match r {
                Ok(m) => {
                    let n = base@.len() as int;
                    &&& m.wf()
                    &&& m.faces@.len() == 3 + n
                    &&& forall|f: int| 0 <= f < m.faces@.len() ==> (#[trigger] m.faces@[f]).normal
                        is Some
                    &&& m.vertices@.len() == 2 * n
                    &&& forall|i: int|
                        0 <= i < n ==> (#[trigger] m.vertices@[i]).position == base@[i]
                    &&& m.face_degree(0) == n
                    &&& forall|i: int|
                        0 <= i < n ==> #[trigger] m.face_positions(0)[i] == base@[n - 1 - i]
                    &&& m.face_degree(1) == n
                    &&& forall|i: int| 0 <= i < n ==> #[trigger] m.face_positions(1)[i] == base@[i]
                    &&& forall|f: int| 2 <= f < 2 + n ==> #[trigger] m.face_degree(f) == 4
                    &&& m.face_degree(2 + n) == n
                    &&& forall|i: int|
                        0 <= i < n ==> #[trigger] m.face_positions(2 + n)[i] == raised_point(
                            base@,
                            i,
                        )
                    &&& m.face_positions(2 + n) == raised_seq(base@)
                    &&& m.faces@[2 + n].normal == Some(raised_cap_normal(base@))
                },
                Err(e) => e == MeshError::DegenerateFace || e == MeshError::CoordinateOverflow
                    || e == MeshError::ArenaOverflow,
            },
    {
        let mut mesh = match Self::build_caps(base) {
            Ok(m) => m,
            Err(e) => {
                return Err(e);
            },
        };
        match Self::raise_base(&mut mesh, base) {
            Ok(()) => {},
            Err(e) => {
                return Err(e);
            },
        }
        Ok(mesh)
    }

    /// Builds one tower over the given base polygon and appends it: the
    /// reversed base as a bottom cap, the base itself raised by
    /// `BASE_HEIGHT`, and the profile extrusion on top when the profile is
    /// nonempty. Fails, leaving the collection untouched, when the base is
    /// degenerate or the tower outgrows a coordinate or arena bound; for
    /// an empty profile, success is owed whenever `tower_base_ok` holds.
    #[verifier::rlimit(100)]
    pub fn add_tower(&mut self, base: &Vec<Vec3>, profile: &Vec<(i32, i32)>, material: usize) -> (r:
        Result<(), MeshError>)
        requires
            old(self).wf(),
            base@.len() >= 3,
            forall|i: int| 0 <= i < base@.len() ==> (#[trigger] base@[i]).in_bounds(),
        ensures
            profile@.len() == 0 && tower_base_ok(base@) ==> r is Ok,
            match r {
                Ok(()) => {
                    let n = base@.len() as int;
                    let ell = profile@.len() as int;
                    let m = final(self).meshes@.last();
                    &&& final(self).wf()
                    &&& final(self).meshes@.len() == old(self).meshes@.len() + 1
                    &&& final(self).materials@ == old(self).materials@.push(material)
                    &&& forall|i: int|
                        0 <= i < old(self).meshes@.len() ==> #[trigger] final(self).meshes@[i]
                            == old(self).meshes@[i]
                    &&& m.faces@.len() == TowerTiling::tower_face_count(n, ell)
                    &&& m.vertices@.len() == 2 * n + ell * n
                    // the first n vertices are the base polygon itself
                    &&& forall|i: int|
                        0 <= i < n ==> (#[trigger] m.vertices@[i]).position == base@[i]
                    // the bottom cap is the reversed base, the next face the
                    // base itself
                    &&& m.face_degree(0) == n
                    &&& forall|i: int|
                        0 <= i < n ==> #[trigger] m.face_positions(0)[i] == base@[n - 1 - i]
                    &&& m.face_degree(1) == n
                    &&& forall|i: int| 0 <= i < n ==> #[trigger] m.face_positions(1)[i] == base@[i]
                    // the raise: one side quad per edge and the raised cap
                    &&& forall|f: int| 2 <= f < 2 + n ==> #[trigger] m.face_degree(f) == 4
                    &&& m.face_degree(2 + n) == n
                    &&& forall|i: int|
                        0 <= i < n ==> #[trigger] m.face_positions(2 + n)[i] == raised_point(
                            base@,
                            i,
                        )
                    // the profile layers: one layer of side quads per step
                    // and one final top cap
                    &&& (ell >= 1 ==> forall|f: int|
                        3 + n <= f < 3 + n + ell * n ==> #[trigger] m.face_degree(f) == 4)
                    &&& (ell >= 1 ==> m.face_degree(3 + n + ell * n) == n)
                    // every profile layer vertex sits exactly at its
                    // accumulated radial and height offset from the
                    // raised cap
                    &&& (ell >= 1 ==> forall|s: int, k: int|
                        1 <= s <= ell && 0 <= k < n ==> (#[trigger] m.vertices@[2 * n + (s - 1)
                            * n + k]).position == tower_layer_position(base@, profile@, s, k))
                    &&& tower_built_over(m, base@, ell)
                },
                Err(e) => {
                    &&& *final(self) == *old(self)
                    &&& (e == MeshError::DegenerateFace || e == MeshError::CoordinateOverflow || e
                        == MeshError::ArenaOverflow)
                },
            },
    {
        let ghost bs = base@;
        let n = base.len();
        if n > MAX_TOWER_BASE {
            return Err(MeshError::ArenaOverflow);
        }
        let mut mesh = match Self::build_raised_base(base) {
            Ok(m) => m,
            Err(e) => {
                return Err(e);
            },
        };
        let ghost mesh4 = mesh;
        let top_face = 2 + n;

        // The profile silhouette, when one is declared.
        if profile.len() > 0 {
            let profile_top = match mesh.extrude_profile(top_face, profile) {
                Ok(f) => f,
                Err(e) => {
                    return Err(e);
                },
            };
            let ghost mesh5 = mesh;
            match mesh.compute_face_normals() {
                Ok(()) => {},
                Err(e) => {
                    return Err(e);
                },
            }
            proof {
                crate::mesh::lemma_face_boundary_frame(mesh4, mesh5, 0);
                crate::mesh::lemma_face_boundary_frame(mesh4, mesh5, 1);
                crate::mesh::lemma_face_boundary_frame(mesh4, mesh5, 2 + n as int);
                crate::mesh::lemma_face_boundary_frame(mesh5, mesh, 0);
                crate::mesh::lemma_face_boundary_frame(mesh5, mesh, 1);
                crate::mesh::lemma_face_boundary_frame(mesh5, mesh, 2 + n as int);
                assert forall|f: int| 2 <= f < 2 + n implies #[trigger] mesh.face_degree(f)
                    == 4 by {
                    crate::mesh::lemma_face_boundary_frame(mesh4, mesh5, f);
                    crate::mesh::lemma_face_boundary_frame(mesh5, mesh, f);
                }
                assert forall|f: int|
                    3 + n <= f < 3 + n + profile@.len() * n implies #[trigger] mesh.face_degree(
                    f,
                ) == 4 by {
                    let t = (f - (3 + n)) / (n as int);
                    let j = (f - (3 + n)) % (n as int);
                    vstd::arithmetic::div_mod::lemma_fundamental_div_mod(f - (3 + n), n as int);
                    vstd::arithmetic::div_mod::lemma_mod_bound(f - (3 + n), n as int);
                    vstd::arithmetic::div_mod::lemma_div_pos_is_pos(f - (3 + n), n as int);
                    assert(t < profile@.len()) by (nonlinear_arith)
                        requires
                            f - (3 + n) == t * (n as int) + j,
                            f - (3 + n) < profile@.len() * (n as int),
                            0 <= j < n,
                            t >= 0,
                            n >= 3,
                    ;
                    assert(mesh5.face_degree(3 + n + t * (n as int) + j) == 4);
                    crate::mesh::lemma_face_boundary_frame(mesh5, mesh,
                        3 + n + t * (n as int) + j);
                }
                assert(profile_top == 3 + n + profile@.len() * n);
                crate::mesh::lemma_face_boundary_frame(mesh5, mesh,
                    3 + (n as int) + profile@.len() * (n as int));
                assert forall|i: int| 0 <= i < n implies #[trigger] mesh.face_positions(
                    2 + n,
                )[i] == raised_point(bs, i) by {
                    assert(mesh4.face_positions(2 + n)[i] == raised_point(bs, i));
                }
                assert forall|i: int| 0 <= i < n implies #[trigger] mesh.face_positions(0)[i]
                    == bs[n - 1 - i] && #[trigger] mesh.face_positions(1)[i] == bs[i] by {
                    assert(mesh4.face_positions(0)[i] == bs[n - 1 - i]);
                    assert(mesh4.face_positions(1)[i] == bs[i]);
                }
                lemma_layer_positions_match(bs, profile@, mesh4, 2 + n as int);
                assert forall|s: int, k: int|
                    1 <= s <= profile@.len() && 0 <= k < n implies (#[trigger] mesh.vertices@[2
                    * n + (s - 1) * n + k]).position == tower_layer_position(bs, profile@, s, k)
                    by {
                    assert(mesh5.vertices@[mesh4.vertices@.len() + (s - 1) * (n as int)
                        + k].position == Mesh::profile_position(mesh4, 2 + n as int, profile@,
                        s, k));
                    assert(mesh.vertices@ == mesh5.vertices@);
                    assert(2 * (n as int) + (s - 1) * (n as int) + k == mesh4.vertices@.len()
                        + (s - 1) * (n as int) + k);
                }
            }
        }

        self.meshes.push(mesh);
        self.materials.push(material);
        Ok(())
    }

    /// Serializes every tower into one asset document: the given material
    /// list, then one primitive per tower.
    #[verifier::rlimit(100)]
    #[verifier::spinoff_prover]
    pub fn build_gltf(&self, materials: Vec<Material>, instance_translations: &Vec<Vec3>) -> (r:
        Result<Gltf, GltfError>)
        requires
            self.wf(),
            forall|i: int|
                0 <= i < materials@.len() ==> material_bounded(#[trigger] materials@[i]),
            forall|i: int|
                0 <= i < instance_translations@.len() ==> (#[trigger] instance_translations@[
                i]).in_bounds(),
        ensures
            towers_fit(self.meshes@, instance_translations@) ==> r is Ok,
            match r {
                Ok(g) => {
                    &&& g.wf()
                    &&& g.materials@ == materials@
                    &&& g.buffer_data@ == packed_vec3s(instance_translations@) + packed_towers(
                        self.meshes@,
                    )
                    &&& g.primitives@.len() == self.meshes@.len()
                    &&& forall|i: int|
                        0 <= i < self.meshes@.len() ==> (#[trigger] g.primitives@[i]).material
                            == self.materials@[i]
                    &&& forall|i: int|
                        0 <= i < self.meshes@.len() ==> (#[trigger] g.primitives@[i]) == (Primitive {
                            material: self.materials@[i],
                            indices: (1 + 3 * i + 2) as usize,
                            position: (1 + 3 * i) as usize,
                            normal: (1 + 3 * i + 1) as usize,
                        })
                },
                Err(e) => {
                    &&& e == GltfError::TooLarge
                    &&& !towers_fit(self.meshes@, instance_translations@)
                },
            },
    {
        let mut gltf = Gltf::new();
        gltf.add_materials(materials);
        match gltf.add_instances(instance_translations) {
            Ok(()) => {},
            Err(e) => {
                proof {
                    assert(!towers_fit(self.meshes@, instance_translations@));
                }
                return Err(e);
            },
        }

        let count = self.meshes.len();
        for i in 0..count
            invariant
                self.wf(),
                count == self.meshes@.len(),
                gltf.wf(),
                gltf.materials@ == materials@,
                gltf.primitives@.len() == i,
                gltf.accessors@.len() == 1 + 3 * i,
                gltf.buffer_data@ == packed_vec3s(instance_translations@) + packed_towers(
                    self.meshes@.take(i as int),
                ),
                forall|q: int|
                    0 <= q < i ==> (#[trigger] gltf.primitives@[q]) == (Primitive {
                        material: self.materials@[q],
                        indices: (1 + 3 * q + 2) as usize,
                        position: (1 + 3 * q) as usize,
                        normal: (1 + 3 * q + 1) as usize,
                    }),
        {
            proof {
                assert(self.meshes@[i as int].wf());
            }
            match gltf.add_primitive(&self.meshes[i], self.materials[i]) {
                Ok(()) => {},
                Err(e) => {
                    proof {
                        crate::gltf::lemma_packed_vec3s_len(instance_translations@);
                        assert(gltf.buffer_data@.len() == packed_vec3s(instance_translations@).len() + packed_towers(self.meshes@.take(i as int)).len());
                        assert(!towers_fit(self.meshes@, instance_translations@));
                    }
                    return Err(e);
                },
            }
            proof {
                assert(self.meshes@.take(i + 1).drop_last() =~= self.meshes@.take(i as int));
                assert(self.meshes@.take(i + 1).last() == self.meshes@[i as int]);
                assert(gltf.buffer_data@ =~= packed_vec3s(instance_translations@) + packed_towers(
                    self.meshes@.take(i + 1),
                ));
            }
        }
        proof {
            assert(self.meshes@.take(count as int) =~= self.meshes@);
        }
        Ok(gltf)
    }
}

} // verus!
