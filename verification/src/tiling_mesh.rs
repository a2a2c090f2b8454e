//! The aperiodic tiling generator.
//!
//! Builds a local patch of the integer-lattice tiling: every seed is
//! instantiated under a 3x3 neighbourhood of the two translation vectors
//! (the cloud), projected into 3D, and one polygon is traced around each
//! seed for every consecutive pair of locally present edge directions.

use vstd::prelude::*;

use crate::mesh::{Mesh, MeshError};
use crate::tiling::{
    basis_coefficients, lattice_in_bounds, Basis, IntegerTiling, TilingVector, LATTICE_LIMIT,
};
use crate::towers::TowerTiling;
use crate::vec3::{Vec3, MAX_COORD};

verus! {

/// Largest lattice coordinate magnitude a face walk may reach.
pub const WALK_LIMIT: i64 = 8796093022208;

/// Largest number of cloud points the tracing stage accepts.
pub const MAX_CLOUD_POINTS: usize = 100000000;

/// A failure of the tiling generator. Every failure marks an inconsistent
/// or oversized tiling description, not a transient condition.
#[derive(Clone, Copy, PartialEq, Eq, Structural, Debug)]
pub enum TilingError {
    /// A projected lattice point left the mesh coordinate bound.
    CoordinateOverflow,
    /// A face walk visited a lattice point missing from the cloud.
    MissingCloudEntry,
    /// A face walk did not return to its start within its step budget.
    OpenWalk,
    /// A face walk closed after fewer than three vertices.
    DegenerateWalk,
    /// An arena or step counter outgrew its index space.
    ArenaOverflow,
    /// Building a tower failed.
    Tower(MeshError),
}

/// One instantiated lattice point: its originating seed, whether it
/// belongs to the one-ring halo, and its mesh vertex index.
#[derive(Clone, Copy, Debug)]
pub struct CloudVertex {
    pub seed: TilingVector,
    pub outside: bool,
    pub index: usize,
}

/// Some cloud entry carries the mesh vertex index `idx`.
pub open spec fn cloud_covers_index(cloud: Seq<(TilingVector, CloudVertex)>, idx: usize) -> bool {
    exists|c: int| 0 <= c < cloud.len() && (#[trigger] cloud[c]).1.index == idx
}

/// There is an entry for lattice point `p` in the cloud.
pub open spec fn cloud_has(cloud: Seq<(TilingVector, CloudVertex)>, p: TilingVector) -> bool {
    exists|i: int| 0 <= i < cloud.len() && (#[trigger] cloud[i]).0 == p
}

/// The star directions of the scan: each direction index `a % 12`, for
/// `a` running from `start` to `end` in order, whose lattice neighbour of
/// `pos` exists in the cloud.
pub open spec fn star_scan(
    cloud: Seq<(TilingVector, CloudVertex)>,
    pos: TilingVector,
    start: int,
    end: int,
) -> Seq<usize>
    decreases end - start + 1,
{
    if start > end {
        Seq::empty()
    } else {
        star_scan(cloud, pos, start, end - 1) + (if cloud_has(
            cloud,
            adjacent_point(pos, end % 12),
        ) {
            seq![(end % 12) as usize]
        } else {
            Seq::empty()
        })
    }
}

/// The cloud entry holding lattice point `p` (unique while the cloud's
/// keys are duplicate-free).
pub open spec fn cloud_entry(cloud: Seq<(TilingVector, CloudVertex)>, p: TilingVector) -> int {
    choose|i: int| 0 <= i < cloud.len() && (#[trigger] cloud[i]).0 == p
}

/// The turning rule of the tracing stage: scanning downward (mod 12) from
/// `angle`, the first direction whose lattice neighbour of `pos` is in
/// the cloud, trying at most `tries` candidates; `-1` when none is found.
pub open spec fn turn_from(
    cloud: Seq<(TilingVector, CloudVertex)>,
    pos: TilingVector,
    angle: int,
    tries: nat,
) -> int
    decreases tries,
{
    if tries == 0 {
        -1
    } else if cloud_has(cloud, adjacent_point(pos, angle)) {
        angle
    } else {
        turn_from(cloud, pos, (angle + 11) % 12, (tries - 1) as nat)
    }
}

/// The outcome of one face walk.
pub enum WalkResult {
    /// The walk returned to its start; the sequence holds the mesh vertex
    /// index of every visited lattice point, in visit order.
    Closed(Seq<usize>),
    /// The walk stood at a lattice point missing from the cloud, or found
    /// no present neighbour to turn to.
    MissingEntry,
    /// The walk did not return to its start within its step budget.
    Open,
}

/// One face walk of the tracing stage: visit the point the walk stands
/// at, step in the current direction, and either close (back at `start`),
/// run out of budget, or turn by scanning downward from `angle + 5` and
/// continue.
pub open spec fn face_walk(
    cloud: Seq<(TilingVector, CloudVertex)>,
    start: TilingVector,
    pos: TilingVector,
    angle: int,
    fuel: nat,
) -> WalkResult
    decreases fuel,
{
    if !cloud_has(cloud, pos) {
        WalkResult::MissingEntry
    } else {
        let visit = cloud[cloud_entry(cloud, pos)].1.index;
        let next = adjacent_point(pos, angle);
        if next == start {
            WalkResult::Closed(seq![visit])
        } else if fuel == 0 {
            WalkResult::Open
        } else {
            let turned = turn_from(cloud, next, (angle + 5) % 12, 12);
            if turned < 0 {
                WalkResult::MissingEntry
            } else {
                match face_walk(cloud, start, next, turned, (fuel - 1) as nat) {
                    WalkResult::Closed(rest) => WalkResult::Closed(seq![visit] + rest),
                    other => other,
                }
            }
        }
    }
}

/// The step budget of one face walk over a cloud of `n` points.
pub open spec fn walk_budget(n: int) -> int {
    12 * (n + 1)
}

/// A closed walk visits at most one point more than its budget.
pub proof fn lemma_walk_len(
    cloud: Seq<(TilingVector, CloudVertex)>,
    start: TilingVector,
    pos: TilingVector,
    angle: int,
    fuel: nat,
)
    ensures
        face_walk(cloud, start, pos, angle, fuel) matches WalkResult::Closed(vs) ==> 1 <= vs.len()
            <= fuel + 1,
    decreases fuel,
{
    if cloud_has(cloud, pos) {
        let next = adjacent_point(pos, angle);
        if next != start && fuel > 0 {
            let turned = turn_from(cloud, next, (angle + 5) % 12, 12);
            if turned >= 0 {
                lemma_walk_len(cloud, start, next, turned, (fuel - 1) as nat);
            }
        }
    }
}

/// A scan over `end - start + 1` directions yields at most that many
/// star directions.
pub proof fn lemma_star_scan_len(
    cloud: Seq<(TilingVector, CloudVertex)>,
    pos: TilingVector,
    start: int,
    end: int,
)
    ensures
        star_scan(cloud, pos, start, end).len() <= if end - start + 1 >= 0 {
            end - start + 1
        } else {
            0
        },
    decreases end - start + 1,
{
    if start <= end {
        lemma_star_scan_len(cloud, pos, start, end - 1);
    }
}

/// The lattice point one step from `p` in direction `d` (mod 12).
pub open spec fn adjacent_point(p: TilingVector, d: int) -> TilingVector {
    let c = basis_coefficients()[d % 12];
    (((p.0 + c.0) as i64), ((p.1 + c.1) as i64), ((p.2 + c.2) as i64), ((p.3 + c.3) as i64))
}

/// The exact 3D coordinates of a lattice point under a basis: each of the
/// four integer coordinates weighted by one of the first four basis
/// directions.
pub open spec fn project_coords(b: Basis, c: TilingVector) -> (int, int, int) {
    let bs = b.basis_seq();
    (
        c.0 * bs[0].x + c.1 * bs[1].x + c.2 * bs[2].x + c.3 * bs[3].x,
        c.0 * bs[0].y + c.1 * bs[1].y + c.2 * bs[2].y + c.3 * bs[3].y,
        c.0 * bs[0].z + c.1 * bs[1].z + c.2 * bs[2].z + c.3 * bs[3].z,
    )
}

/// The lattice point of seed `s` instantiated at multiples `(di, dj)` of
/// the two translation vectors.
pub open spec fn seed_instance(t: IntegerTiling, s: int, di: int, dj: int) -> TilingVector {
    let p = t.seeds@[s].position;
    let t1 = t.translations@[0];
    let t2 = t.translations@[1];
    (
        ((p.0 + di * t1.0 + dj * t2.0) as i64),
        ((p.1 + di * t1.1 + dj * t2.1) as i64),
        ((p.2 + di * t1.2 + dj * t2.2) as i64),
        ((p.3 + di * t1.3 + dj * t2.3) as i64),
    )
}

/// The projected 3D position of a lattice point, as a fixed-point vector.
pub open spec fn projected_point(b: Basis, c: TilingVector) -> Vec3 {
    let (x, y, z) = project_coords(b, c);
    Vec3 { x: x as i64, y: y as i64, z: z as i64 }
}

/// The projection of a lattice point stays within the mesh coordinate
/// bound.
pub open spec fn projection_in_bounds(b: Basis, c: TilingVector) -> bool {
    let (x, y, z) = project_coords(b, c);
    &&& -MAX_COORD <= x <= MAX_COORD
    &&& -MAX_COORD <= y <= MAX_COORD
    &&& -MAX_COORD <= z <= MAX_COORD
}

/// A cloud entry is the instance of some seed under the 3x3 translation
/// neighbourhood, with that seed recorded and the halo flag set exactly
/// for the non-central instances.
pub open spec fn entry_originates(t: IntegerTiling, e: (TilingVector, CloudVertex)) -> bool {
    exists|s: int, di: int, dj: int|
        0 <= s < t.seeds@.len() && -1 <= di <= 1 && -1 <= dj <= 1 && #[trigger] seed_instance(
            t,
            s,
            di,
            dj,
        ) == e.0 && e.1.seed == t.seeds@[s].position && e.1.outside == !(di == 0 && dj == 0)
}

/// The tiling generator's working state.
pub struct TilingMesh {
    pub mesh: Mesh,
    pub cloud: Vec<(TilingVector, CloudVertex)>,
    pub tiling: IntegerTiling,
    pub basis_coefficients: Vec<TilingVector>,
    /// For each generated face, its (seed index, local face index) pair.
    pub anchored_faces: Vec<(usize, usize)>,
}

impl TilingMesh {
    /// A consistent generator state: a valid tiling, the fixed coefficient
    /// table, a duplicate-free cloud of bounded lattice points whose mesh
    /// vertices exist, and anchors that reference existing seeds.
    pub open spec fn wf(self) -> bool {
        &&& self.mesh.wf()
        &&& self.tiling.wf()
        &&& self.basis_coefficients@ == basis_coefficients()
        &&& forall|i: int|
            0 <= i < self.cloud@.len() ==> (#[trigger] self.cloud@[i]).1.index
                < self.mesh.vertices@.len()
        &&& forall|i: int|
            0 <= i < self.cloud@.len() ==> lattice_in_triple_bounds(
                (#[trigger] self.cloud@[i]).0,
            )
        &&& forall|i: int, j: int|
            0 <= i < j < self.cloud@.len() ==> (#[trigger] self.cloud@[i]).0 != (
            #[trigger] self.cloud@[j]).0
        &&& forall|i: int|
            0 <= i < self.anchored_faces@.len() ==> (#[trigger] self.anchored_faces@[i]).0
                < self.tiling.seeds@.len()
    }

    pub fn new(tiling: IntegerTiling) -> (r: TilingMesh)
        requires
            tiling.wf(),
        ensures
            r.wf(),
            r.tiling == tiling,
            r.mesh.faces@.len() == 0,
            r.mesh.vertices@.len() == 0,
            r.cloud@.len() == 0,
            r.anchored_faces@.len() == 0,
    {
        let basis_coefficients = tiling.basis.get_coefficients();
        TilingMesh {
            mesh: Mesh::new(),
            cloud: Vec::new(),
            tiling,
            basis_coefficients,
            anchored_faces: Vec::new(),
        }
    }

    /// Finds the cloud entry of a lattice point, if any.
    fn cloud_lookup(&self, p: TilingVector) -> (r: Option<usize>)
        ensures
            match r {
                Some(i) => i < self.cloud@.len() && self.cloud@[i as int].0 == p,
                None => !cloud_has(self.cloud@, p),
            },
    {
        let count = self.cloud.len();
        for i in 0..count
            invariant
                count == self.cloud@.len(),
                forall|q: int| 0 <= q < i ==> (#[trigger] self.cloud@[q]).0 != p,
        {
            let (key, _) = self.cloud[i];
            if key.0 == p.0 && key.1 == p.1 && key.2 == p.2 && key.3 == p.3 {
                proof {
                    assert(self.cloud@[i as int].0 == p);
                }
                return Some(i);
            }
        }
        proof {
            assert forall|q: int|
                0 <= q < self.cloud@.len() implies (#[trigger] self.cloud@[q]).0 != p by {}
        }
        None
    }

    /// Projects a lattice point into 3D through the tiling's basis.
    /// Fails when a projected coordinate leaves the mesh bound.
    fn to_world(&self, coefficients: TilingVector) -> (r: Result<Vec3, TilingError>)
        requires
            self.wf(),
            lattice_in_triple_bounds(coefficients),
        ensures
            match r {
                Ok(v) => {
                    let (x, y, z) = project_coords(self.tiling.basis, coefficients);
                    v == (Vec3 { x: x as i64, y: y as i64, z: z as i64 }) && v.in_bounds()
                        && -MAX_COORD <= x <= MAX_COORD && -MAX_COORD <= y <= MAX_COORD
                        && -MAX_COORD <= z <= MAX_COORD
                },
                Err(e) => {
                    let (x, y, z) = project_coords(self.tiling.basis, coefficients);
                    e == TilingError::CoordinateOverflow && !(-MAX_COORD <= x <= MAX_COORD
                        && -MAX_COORD <= y <= MAX_COORD && -MAX_COORD <= z <= MAX_COORD)
                },
            },
    {
        let basis = self.tiling.basis.get_basis();
        let (c0, c1, c2, c3) = coefficients;
        let b0 = basis[0];
        let b1 = basis[1];
        let b2 = basis[2];
        let b3 = basis[3];
        proof {
            lemma_projection_term_bounds(c0 as int, b0.x as int);
            lemma_projection_term_bounds(c1 as int, b1.x as int);
            lemma_projection_term_bounds(c2 as int, b2.x as int);
            lemma_projection_term_bounds(c3 as int, b3.x as int);
            lemma_projection_term_bounds(c0 as int, b0.y as int);
            lemma_projection_term_bounds(c1 as int, b1.y as int);
            lemma_projection_term_bounds(c2 as int, b2.y as int);
            lemma_projection_term_bounds(c3 as int, b3.y as int);
            lemma_projection_term_bounds(c0 as int, b0.z as int);
            lemma_projection_term_bounds(c1 as int, b1.z as int);
            lemma_projection_term_bounds(c2 as int, b2.z as int);
            lemma_projection_term_bounds(c3 as int, b3.z as int);
        }
        let x: i128 = (c0 as i128) * (b0.x as i128) + (c1 as i128) * (b1.x as i128) + (
        c2 as i128) * (b2.x as i128) + (c3 as i128) * (b3.x as i128);
        let y: i128 = (c0 as i128) * (b0.y as i128) + (c1 as i128) * (b1.y as i128) + (
        c2 as i128) * (b2.y as i128) + (c3 as i128) * (b3.y as i128);
        let z: i128 = (c0 as i128) * (b0.z as i128) + (c1 as i128) * (b1.z as i128) + (
        c2 as i128) * (b2.z as i128) + (c3 as i128) * (b3.z as i128);
        let limit = MAX_COORD as i128;
        if x < -limit || x > limit || y < -limit || y > limit || z < -limit || z > limit {
            return Err(TilingError::CoordinateOverflow);
        }
        Ok(Vec3 { x: x as i64, y: y as i64, z: z as i64 })
    }

    /// Instantiates every seed under the 3x3 neighbourhood of the two
    /// translation vectors: each resulting lattice point is projected to a
    /// mesh vertex and recorded in the cloud. A lattice point is never
    /// re-inserted; the non-central instances form the one-ring halo that
    /// boundary seeds need to find their neighbours.
    pub fn init_cloud(&mut self) -> (r: Result<(), TilingError>)
        requires
            old(self).wf(),
        ensures
            final(self).wf(),
            final(self).tiling == old(self).tiling,
            final(self).anchored_faces == old(self).anchored_faces,
            final(self).mesh.half_edges@ == old(self).mesh.half_edges@,
            final(self).mesh.faces@ == old(self).mesh.faces@,
            final(self).mesh.spans@ == old(self).mesh.spans@,
            old(self).mesh.vertices@.len() <= final(self).mesh.vertices@.len(),
            forall|v: int|
                0 <= v < old(self).mesh.vertices@.len() ==> #[trigger] final(self).mesh.vertices@[v] == old(self).mesh.vertices@[v],
            old(self).cloud@.len() <= final(self).cloud@.len(),
            forall|c: int|
                0 <= c < old(self).cloud@.len() ==> #[trigger] final(self).cloud@[c] == old(
                    self,
                ).cloud@[c],
            // every added entry is a seed instance with its projected mesh
            // vertex
            forall|c: int|
                old(self).cloud@.len() <= c < final(self).cloud@.len() ==> entry_originates(
                    final(self).tiling,
                    #[trigger] final(self).cloud@[c],
                ),
            forall|c: int|
                old(self).cloud@.len() <= c < final(self).cloud@.len() ==> (#[trigger] final(self).mesh.vertices@[final(self).cloud@[c].1.index as int]).position == projected_point(
                    final(self).tiling.basis,
                    final(self).cloud@[c].0,
                ),
            r is Ok ==> forall|s: int, di: int, dj: int|
                0 <= s < final(self).tiling.seeds@.len() && -1 <= di <= 1 && -1 <= dj <= 1
                    ==> cloud_has(
                    final(self).cloud@,
                    #[trigger] seed_instance(final(self).tiling, s, di, dj),
                ),
            r matches Err(e) ==> e == TilingError::CoordinateOverflow && exists|s: int, di: int, dj: int|
                0 <= s < old(self).tiling.seeds@.len() && -1 <= di <= 1 && -1 <= dj <= 1 && !projection_in_bounds(
                    old(self).tiling.basis,
                    #[trigger] seed_instance(old(self).tiling, s, di, dj),
                ),
            // success is owed when every instance projects within bounds
            (forall|s: int, di: int, dj: int|
                0 <= s < old(self).tiling.seeds@.len() && -1 <= di <= 1 && -1 <= dj <= 1
                    ==> projection_in_bounds(
                    old(self).tiling.basis,
                    #[trigger] seed_instance(old(self).tiling, s, di, dj),
                )) ==> r is Ok,
    {
        let seed_count = self.tiling.seeds.len();
        let (a1, b1, c1, d1) = self.tiling.translations[0];
        let (a2, b2, c2, d2) = self.tiling.translations[1];
        for s in 0..seed_count
            invariant
                self.wf(),
                self.tiling == old(self).tiling,
                self.anchored_faces == old(self).anchored_faces,
                self.mesh.half_edges@ == old(self).mesh.half_edges@,
                self.mesh.faces@ == old(self).mesh.faces@,
                self.mesh.spans@ == old(self).mesh.spans@,
                old(self).mesh.vertices@.len() <= self.mesh.vertices@.len(),
                forall|v: int|
                    0 <= v < old(self).mesh.vertices@.len() ==> #[trigger] self.mesh.vertices@[v] == old(self).mesh.vertices@[v],
                old(self).cloud@.len() <= self.cloud@.len(),
                forall|c: int|
                    0 <= c < old(self).cloud@.len() ==> #[trigger] self.cloud@[c] == old(
                        self,
                    ).cloud@[c],
                forall|c: int|
                    old(self).cloud@.len() <= c < self.cloud@.len() ==> entry_originates(
                        self.tiling,
                        #[trigger] self.cloud@[c],
                    ),
                forall|c: int|
                    old(self).cloud@.len() <= c < self.cloud@.len() ==> (#[trigger] self.mesh.vertices@[self.cloud@[c].1.index as int]).position == projected_point(
                        self.tiling.basis,
                        self.cloud@[c].0,
                    ),
                seed_count == self.tiling.seeds@.len(),
                (a1, b1, c1, d1) == self.tiling.translations@[0],
                (a2, b2, c2, d2) == self.tiling.translations@[1],
                forall|q: int, di: int, dj: int|
                    0 <= q < s && -1 <= di <= 1 && -1 <= dj <= 1 ==> cloud_has(
                        self.cloud@,
                        #[trigger] seed_instance(self.tiling, q, di, dj),
                    ),
        {
            let (a, b, c, d) = self.tiling.seeds[s].position;
            let ghost cloud_at_seed_start = self.cloud@;
            for step_i in 0..3usize
                invariant
                    self.wf(),
                    self.tiling == old(self).tiling,
                    self.anchored_faces == old(self).anchored_faces,
                    self.mesh.half_edges@ == old(self).mesh.half_edges@,
                    self.mesh.faces@ == old(self).mesh.faces@,
                    self.mesh.spans@ == old(self).mesh.spans@,
                    old(self).mesh.vertices@.len() <= self.mesh.vertices@.len(),
                    forall|v: int|
                        0 <= v < old(self).mesh.vertices@.len() ==> #[trigger] self.mesh.vertices@[v] == old(self).mesh.vertices@[v],
                    old(self).cloud@.len() <= self.cloud@.len(),
                    forall|c: int|
                        0 <= c < old(self).cloud@.len() ==> #[trigger] self.cloud@[c] == old(
                            self,
                        ).cloud@[c],
                    forall|c: int|
                        old(self).cloud@.len() <= c < self.cloud@.len() ==> entry_originates(
                            self.tiling,
                            #[trigger] self.cloud@[c],
                        ),
                    forall|c: int|
                        old(self).cloud@.len() <= c < self.cloud@.len() ==> (#[trigger] self.mesh.vertices@[self.cloud@[c].1.index as int]).position == projected_point(
                            self.tiling.basis,
                            self.cloud@[c].0,
                        ),
                    s < seed_count,
                    seed_count == self.tiling.seeds@.len(),
                    (a1, b1, c1, d1) == self.tiling.translations@[0],
                    (a2, b2, c2, d2) == self.tiling.translations@[1],
                    (a, b, c, d) == self.tiling.seeds@[s as int].position,
                    forall|q: int, di: int, dj: int|
                        0 <= q < s && -1 <= di <= 1 && -1 <= dj <= 1 ==> cloud_has(
                            self.cloud@,
                            #[trigger] seed_instance(self.tiling, q, di, dj),
                        ),
                    forall|di: int, dj: int|
                        -1 <= di < step_i - 1 && -1 <= dj <= 1 ==> cloud_has(
                            self.cloud@,
                            #[trigger] seed_instance(self.tiling, s as int, di, dj),
                        ),
            {
                let i: i64 = (step_i as i64) - 1;
                for step_j in 0..3usize
                    invariant
                        self.wf(),
                        self.tiling == old(self).tiling,
                        self.anchored_faces == old(self).anchored_faces,
                        self.mesh.half_edges@ == old(self).mesh.half_edges@,
                        self.mesh.faces@ == old(self).mesh.faces@,
                        self.mesh.spans@ == old(self).mesh.spans@,
                        old(self).mesh.vertices@.len() <= self.mesh.vertices@.len(),
                        forall|v: int|
                            0 <= v < old(self).mesh.vertices@.len() ==> #[trigger] self.mesh.vertices@[v] == old(self).mesh.vertices@[v],
                        old(self).cloud@.len() <= self.cloud@.len(),
                        forall|c: int|
                            0 <= c < old(self).cloud@.len() ==> #[trigger] self.cloud@[c] == old(
                                self,
                            ).cloud@[c],
                        forall|c: int|
                            old(self).cloud@.len() <= c < self.cloud@.len() ==> entry_originates(
                                self.tiling,
                                #[trigger] self.cloud@[c],
                            ),
                        forall|c: int|
                            old(self).cloud@.len() <= c < self.cloud@.len() ==> (#[trigger] self.mesh.vertices@[self.cloud@[c].1.index as int]).position == projected_point(
                                self.tiling.basis,
                                self.cloud@[c].0,
                            ),
                        s < seed_count,
                        seed_count == self.tiling.seeds@.len(),
                        step_i < 3,
                        i == step_i as int - 1,
                        (a1, b1, c1, d1) == self.tiling.translations@[0],
                        (a2, b2, c2, d2) == self.tiling.translations@[1],
                        (a, b, c, d) == self.tiling.seeds@[s as int].position,
                        forall|q: int, di: int, dj: int|
                            0 <= q < s && -1 <= di <= 1 && -1 <= dj <= 1 ==> cloud_has(
                                self.cloud@,
                                #[trigger] seed_instance(self.tiling, q, di, dj),
                            ),
                        forall|di: int, dj: int|
                            -1 <= di < i && -1 <= dj <= 1 ==> cloud_has(
                                self.cloud@,
                                #[trigger] seed_instance(self.tiling, s as int, di, dj),
                            ),
                        forall|dj: int|
                            -1 <= dj < step_j - 1 ==> cloud_has(
                                self.cloud@,
                                #[trigger] seed_instance(self.tiling, s as int, i as int, dj),
                            ),
                {
                    let j: i64 = (step_j as i64) - 1;
                    proof {
                        assert(lattice_in_bounds(self.tiling.seeds@[s as int].position));
                        assert(lattice_in_bounds(self.tiling.translations@[0]));
                        assert(lattice_in_bounds(self.tiling.translations@[1]));
                        crate::vec3::lemma_mul_le(i as int, a1 as int, 1, LATTICE_LIMIT as int);
                        crate::vec3::lemma_mul_le(i as int, b1 as int, 1, LATTICE_LIMIT as int);
                        crate::vec3::lemma_mul_le(i as int, c1 as int, 1, LATTICE_LIMIT as int);
                        crate::vec3::lemma_mul_le(i as int, d1 as int, 1, LATTICE_LIMIT as int);
                        crate::vec3::lemma_mul_le(j as int, a2 as int, 1, LATTICE_LIMIT as int);
                        crate::vec3::lemma_mul_le(j as int, b2 as int, 1, LATTICE_LIMIT as int);
                        crate::vec3::lemma_mul_le(j as int, c2 as int, 1, LATTICE_LIMIT as int);
                        crate::vec3::lemma_mul_le(j as int, d2 as int, 1, LATTICE_LIMIT as int);
                    }
                    let instance = (
                        a + i * a1 + j * a2,
                        b + i * b1 + j * b2,
                        c + i * c1 + j * c2,
                        d + i * d1 + j * d2,
                    );
                    proof {
                        assert(instance == seed_instance(self.tiling, s as int, i as int,
                            j as int));
                    }

                    match self.cloud_lookup(instance) {
                        Some(_) => {
                            proof {
                                assert(cloud_has(self.cloud@, instance));
                            }
                        },
                        None => {
                            let world_position = match self.to_world(instance) {
                                Ok(p) => p,
                                Err(e) => {
                                    proof {
                                        assert(!projection_in_bounds(self.tiling.basis,
                                            seed_instance(self.tiling, s as int, i as int,
                                                j as int)));
                                    }
                                    return Err(e);
                                },
                            };
                            let index = self.mesh.add_vertex(world_position);

                            let outside = i != 0 || j != 0;
                            let vertex = CloudVertex { seed: (a, b, c, d), outside, index };
                            let ghost pre_cloud = self.cloud@;
                            self.cloud.push((instance, vertex));
                            proof {
                                assert(self.cloud@.last().0 == instance);
                                assert(cloud_has(self.cloud@, instance));
                                assert(entry_originates(self.tiling, self.cloud@.last())) by {
                                    assert(seed_instance(self.tiling, s as int, i as int,
                                        j as int) == self.cloud@.last().0);
                                }
                                assert(self.mesh.vertices@[index as int].position
                                    == projected_point(self.tiling.basis, instance));
                                assert forall|i2: int, j2: int|
                                    0 <= i2 < j2 < self.cloud@.len() implies (
                                #[trigger] self.cloud@[i2]).0 != (#[trigger] self.cloud@[j2]).0
                                    by {
                                    if j2 < pre_cloud.len() {
                                        assert(self.cloud@[i2] == pre_cloud[i2]);
                                        assert(self.cloud@[j2] == pre_cloud[j2]);
                                    } else {
                                        assert(self.cloud@[i2] == pre_cloud[i2]);
                                        assert(!cloud_has(pre_cloud, instance));
                                    }
                                }
                            }
                        },
                    }
                    proof {
                        lemma_cloud_has_monotone(self.cloud@);
                        assert forall|dj: int|
                            -1 <= dj < step_j + 1 - 1 implies cloud_has(
                            self.cloud@,
                            #[trigger] seed_instance(self.tiling, s as int, i as int, dj),
                        ) by {}
                    }
                }
            }
        }
        Ok(())
    }

    /// The locally present edge directions around a seed: each direction
    /// index in `[start_angle, end_angle]` (mod 12) whose lattice
    /// neighbour exists in the cloud.
    pub fn star_angles(&self, seed: usize, start_angle: usize, end_angle: usize) -> (r: Vec<
        usize,
    >)
        requires
            self.wf(),
            seed < self.tiling.seeds@.len(),
            start_angle <= end_angle,
            end_angle <= 100,
        ensures
            r@ == star_scan(
                self.cloud@,
                self.tiling.seeds@[seed as int].position,
                start_angle as int,
                end_angle as int,
            ),
            forall|k: int| 0 <= k < r@.len() ==> #[trigger] r@[k] < 12,
            forall|k: int|
                0 <= k < r@.len() ==> cloud_has(
                    self.cloud@,
                    adjacent_point(
                        self.tiling.seeds@[seed as int].position,
                        #[trigger] r@[k] as int,
                    ),
                ),
    {
        let mut star_directions: Vec<usize> = Vec::new();
        let seed_position = self.tiling.seeds[seed].position;
        proof {
            assert(lattice_in_bounds(self.tiling.seeds@[seed as int].position));
        }

        let mut k = start_angle;
        while k <= end_angle
            invariant
                self.wf(),
                seed < self.tiling.seeds@.len(),
                end_angle <= 100,
                start_angle <= k <= end_angle + 1,
                seed_position == self.tiling.seeds@[seed as int].position,
                lattice_in_bounds(seed_position),
                star_directions@ == star_scan(
                    self.cloud@,
                    seed_position,
                    start_angle as int,
                    k - 1,
                ),
                forall|q: int| 0 <= q < star_directions@.len() ==> #[trigger] star_directions@[q]
                    < 12,
                forall|q: int|
                    0 <= q < star_directions@.len() ==> cloud_has(
                        self.cloud@,
                        adjacent_point(
                            self.tiling.seeds@[seed as int].position,
                            #[trigger] star_directions@[q] as int,
                        ),
                    ),
            decreases end_angle + 1 - k,
        {
            let index = k % 12;
            let adjacent = self.get_adjacent(seed_position, index);
            proof {
                vstd::arithmetic::div_mod::lemma_mod_bound(k as int, 12);
                vstd::arithmetic::div_mod::lemma_mod_twice(k as int, 12);
                assert(adjacent_point(seed_position, index as int) == adjacent_point(
                    seed_position,
                    k as int % 12,
                ));
            }
            let ghost before_push = star_directions@;
            if self.cloud_lookup(adjacent).is_some() {
                star_directions.push(index);
                proof {
                    assert(cloud_has(self.cloud@, adjacent));
                }
            }
            proof {
                assert(star_directions@ =~= star_scan(self.cloud@, seed_position,
                    start_angle as int, k as int));
            }
            k = k + 1;
        }

        star_directions
    }

    /// Traces one face polygon: starting at the seed, repeatedly move to
    /// the neighbour in the current direction, then turn by picking the
    /// next direction from `current + 5` (mod 12) downward until one whose
    /// neighbour exists is found, until the walk returns to its start.
    /// The step budget of `walk_budget` (twelve steps per cloud point)
    /// makes the walk total. The result is tied exactly to the outcome of
    /// the specification walk `face_walk`.
    pub fn generate_face(&mut self, seed: usize, first_direction: usize) -> (r: Result<
        usize,
        TilingError,
    >)
        requires
            old(self).wf(),
            seed < old(self).tiling.seeds@.len(),
            first_direction < 12,
        ensures
            final(self).wf(),
            final(self).tiling == old(self).tiling,
            final(self).cloud == old(self).cloud,
            final(self).anchored_faces == old(self).anchored_faces,
            // the mesh grows only by the one traced face
            final(self).mesh.vertices@.len() == old(self).mesh.vertices@.len(),
            forall|v: int|
                0 <= v < old(self).mesh.vertices@.len() ==> (#[trigger] final(self).mesh.vertices@[v]).position == old(self).mesh.vertices@[v].position,
            forall|g: int|
                0 <= g < old(self).mesh.faces@.len() ==> #[trigger] final(self).mesh.faces@[g]
                    == old(self).mesh.faces@[g],
            forall|g: int|
                0 <= g < old(self).mesh.faces@.len() ==> #[trigger] final(self).mesh.spans@[g]
                    == old(self).mesh.spans@[g],
            forall|e: int|
                0 <= e < old(self).mesh.half_edges@.len() ==> #[trigger] final(self).mesh.half_edges@[e] == old(self).mesh.half_edges@[e],
            r is Err ==> final(self).mesh == old(self).mesh,
            old(self).cloud@.len() > MAX_CLOUD_POINTS ==> r == Result::<usize, TilingError>::Err(
                TilingError::ArenaOverflow,
            ),
            ({
                let cloud = old(self).cloud@;
                let start = old(self).tiling.seeds@[seed as int].position;
                let w = face_walk(
                    cloud,
                    start,
                    start,
                    first_direction as int,
                    walk_budget(cloud.len() as int) as nat,
                );
                cloud.len() <= MAX_CLOUD_POINTS ==> match w {
                    WalkResult::Open => r == Result::<usize, TilingError>::Err(TilingError::OpenWalk),
                    WalkResult::MissingEntry => r == Result::<usize, TilingError>::Err(TilingError::MissingCloudEntry),
                    WalkResult::Closed(visited) => {
                        if visited.len() < 3 {
                            r == Result::<usize, TilingError>::Err(TilingError::DegenerateWalk)
                        } else if old(self).mesh.half_edges@.len() + visited.len()
                            >= usize::MAX {
                            r == Result::<usize, TilingError>::Err(TilingError::ArenaOverflow)
                        } else {
                            &&& r == Result::<usize, TilingError>::Ok(
                                old(self).mesh.faces@.len() as usize,
                            )
                            &&& final(self).mesh.faces@.len() == old(self).mesh.faces@.len() + 1
                            &&& final(self).mesh.face_degree(
                                old(self).mesh.faces@.len() as int,
                            ) == visited.len()
                            &&& final(self).mesh.face_vertices(
                                old(self).mesh.faces@.len() as int,
                            ) == visited
                            &&& final(self).mesh.half_edges@.len() == old(
                                self,
                            ).mesh.half_edges@.len() + visited.len()
                            &&& forall|k: int|
                                0 <= k < visited.len() ==> cloud_covers_index(
                                    cloud,
                                    #[trigger] visited[k],
                                )
                        }
                    },
                }
            }),
    {
        let ghost cloud = self.cloud@;
        let start_position = self.tiling.seeds[seed].position;
        proof {
            assert(lattice_in_bounds(self.tiling.seeds@[seed as int].position));
        }
        let mut current_position = start_position;
        let mut next_angle = first_direction;
        let mut face_vertices: Vec<usize> = Vec::new();

        let cloud_size = self.cloud.len();
        if cloud_size > MAX_CLOUD_POINTS {
            return Err(TilingError::ArenaOverflow);
        }
        let mut fuel: u64 = 12 * (cloud_size as u64 + 1);
        let ghost w0 = face_walk(
            cloud,
            start_position,
            start_position,
            first_direction as int,
            fuel as nat,
        );
        proof {
            match face_walk(cloud, start_position, current_position, next_angle as int,
                fuel as nat) {
                WalkResult::Closed(rest) => {
                    assert(face_vertices@ + rest =~= rest);
                },
                _ => {},
            }
        }

        loop
            invariant_except_break
                self.wf(),
                *self == *old(self),
                cloud == self.cloud@,
                seed < self.tiling.seeds@.len(),
                start_position == self.tiling.seeds@[seed as int].position,
                lattice_in_bounds(start_position),
                next_angle < 12,
                cloud.len() <= MAX_CLOUD_POINTS,
                w0 == face_walk(
                    cloud,
                    start_position,
                    start_position,
                    first_direction as int,
                    walk_budget(cloud.len() as int) as nat,
                ),
                match face_walk(cloud, start_position, current_position, next_angle as int,
                    fuel as nat) {
                    WalkResult::Closed(rest) => w0 == WalkResult::Closed(face_vertices@ + rest),
                    WalkResult::MissingEntry => w0 == WalkResult::MissingEntry,
                    WalkResult::Open => w0 == WalkResult::Open,
                },
                forall|k: int|
                    0 <= k < face_vertices@.len() ==> #[trigger] face_vertices@[k]
                        < self.mesh.vertices@.len(),
                forall|k: int|
                    0 <= k < face_vertices@.len() ==> cloud_covers_index(
                        cloud,
                        #[trigger] face_vertices@[k],
                    ),
            ensures
                self.wf(),
                *self == *old(self),
                cloud == self.cloud@,
                w0 == WalkResult::Closed(face_vertices@),
                face_vertices@.len() >= 1,
                forall|k: int|
                    0 <= k < face_vertices@.len() ==> #[trigger] face_vertices@[k]
                        < self.mesh.vertices@.len(),
                forall|k: int|
                    0 <= k < face_vertices@.len() ==> cloud_covers_index(
                        cloud,
                        #[trigger] face_vertices@[k],
                    ),
            decreases fuel,
        {
            let ghost fv_before = face_vertices@;

            // Visit the point the walk stands at.
            let entry = match self.cloud_lookup(current_position) {
                Some(entry) => entry,
                None => {
                    proof {
                        assert(!cloud_has(cloud, current_position));
                    }
                    return Err(TilingError::MissingCloudEntry);
                },
            };
            proof {
                assert(cloud_has(cloud, current_position)) by {
                    assert(cloud[entry as int].0 == current_position);
                }
                assert(cloud_entry(cloud, current_position) == entry as int) by {
                    let ce = cloud_entry(cloud, current_position);
                    assert(cloud[ce].0 == current_position);
                    if ce < entry as int {
                        assert(cloud[ce].0 != cloud[entry as int].0);
                    } else if (entry as int) < ce {
                        assert(cloud[entry as int].0 != cloud[ce].0);
                    }
                }
                assert(lattice_in_triple_bounds(cloud[entry as int].0));
            }
            let (_, vertex) = self.cloud[entry];
            face_vertices.push(vertex.index);
            proof {
                assert(cloud_covers_index(cloud, vertex.index)) by {
                    assert(cloud[entry as int].1.index == vertex.index);
                }
            }

            // Step in the current direction.
            let next_position = self.get_adjacent(current_position, next_angle);
            if next_position.0 == start_position.0 && next_position.1 == start_position.1
                && next_position.2 == start_position.2 && next_position.3 == start_position.3 {
                proof {
                    assert(next_position == start_position);
                    assert(face_walk(cloud, start_position, current_position,
                        next_angle as int, fuel as nat) == WalkResult::Closed(
                        seq![vertex.index],
                    ));
                    assert(face_vertices@ =~= fv_before + seq![vertex.index]);
                }
                break ;
            }
            proof {
                assert(next_position != start_position);
            }
            if fuel == 0 {
                proof {
                    assert(face_walk(cloud, start_position, current_position,
                        next_angle as int, fuel as nat) == WalkResult::Open);
                }
                return Err(TilingError::OpenWalk);
            }
            fuel = fuel - 1;

            // Turn: scan downward from five steps round the circle.
            let ghost scan_start = ((next_angle + 5) % 12) as int;
            let mut turn_angle = (next_angle + 5) % 12;
            let mut tries: usize = 0;
            loop
                invariant_except_break
                    self.wf(),
                    *self == *old(self),
                    cloud == self.cloud@,
                    seed < self.tiling.seeds@.len(),
                    start_position == self.tiling.seeds@[seed as int].position,
                    cloud.len() <= MAX_CLOUD_POINTS,
                    w0 == face_walk(
                        cloud,
                        start_position,
                        start_position,
                        first_direction as int,
                        walk_budget(cloud.len() as int) as nat,
                    ),
                    next_angle < 12,
                    fuel + 1 <= u64::MAX,
                    match face_walk(cloud, start_position, current_position, next_angle as int,
                        (fuel + 1) as nat) {
                        WalkResult::Closed(rest) => w0 == WalkResult::Closed(fv_before + rest),
                        WalkResult::MissingEntry => w0 == WalkResult::MissingEntry,
                        WalkResult::Open => w0 == WalkResult::Open,
                    },
                    cloud_has(cloud, current_position),
                    cloud_entry(cloud, current_position) == entry as int,
                    next_position == adjacent_point(current_position, next_angle as int),
                    next_position != start_position,
                    scan_start == ((next_angle + 5) % 12) as int,
                    turn_angle < 12,
                    tries <= 12,
                    -WALK_LIMIT + 1 <= next_position.0 <= WALK_LIMIT - 1,
                    -WALK_LIMIT + 1 <= next_position.1 <= WALK_LIMIT - 1,
                    -WALK_LIMIT + 1 <= next_position.2 <= WALK_LIMIT - 1,
                    -WALK_LIMIT + 1 <= next_position.3 <= WALK_LIMIT - 1,
                    turn_from(cloud, next_position, scan_start, 12) == turn_from(
                        cloud,
                        next_position,
                        turn_angle as int,
                        (12 - tries) as nat,
                    ),
                ensures
                    self.wf(),
                    *self == *old(self),
                    cloud == self.cloud@,
                    turn_angle < 12,
                    turn_from(cloud, next_position, scan_start, 12) == turn_angle as int,
                    cloud_has(cloud, adjacent_point(next_position, turn_angle as int)),
                decreases 12 - tries,
            {
                if tries >= 12 {
                    proof {
                        assert(turn_from(cloud, next_position, scan_start, 12) == -1);
                        assert(face_walk(cloud, start_position, current_position,
                            next_angle as int, (fuel + 1) as nat)
                            == WalkResult::MissingEntry);
                    }
                    return Err(TilingError::MissingCloudEntry);
                }
                let neighbour = self.get_adjacent(next_position, turn_angle);
                if self.cloud_lookup(neighbour).is_some() {
                    proof {
                        assert(cloud_has(cloud, adjacent_point(next_position,
                            turn_angle as int)));
                        assert(turn_from(cloud, next_position, turn_angle as int, (12
                            - tries) as nat) == turn_angle as int);
                    }
                    break ;
                }
                proof {
                    assert(!cloud_has(cloud, adjacent_point(next_position,
                        turn_angle as int)));
                }
                turn_angle = (turn_angle + 11) % 12;
                tries = tries + 1;
            }
            proof {
                assert(turn_from(cloud, next_position, scan_start, 12) == turn_angle as int);
                match face_walk(cloud, start_position, next_position, turn_angle as int,
                    fuel as nat) {
                    WalkResult::Closed(rest2) => {
                        assert(face_walk(cloud, start_position, current_position,
                            next_angle as int, (fuel + 1) as nat) == WalkResult::Closed(
                            seq![vertex.index] + rest2,
                        ));
                        assert(face_vertices@ + rest2 =~= fv_before + (seq![vertex.index]
                            + rest2));
                    },
                    _ => {},
                }
            }
            current_position = next_position;
            next_angle = turn_angle;
        }

        if face_vertices.len() < 3 {
            return Err(TilingError::DegenerateWalk);
        }
        let he_len = self.mesh.half_edges.len();
        if face_vertices.len() >= usize::MAX - he_len {
            return Err(TilingError::ArenaOverflow);
        }
        let face = self.mesh.add_face(&face_vertices);
        proof {
            assert(final(self).mesh.face_vertices(face as int) == face_vertices@);
        }
        Ok(face)
    }

    /// How many faces a seed with `stars` star directions produces: one
    /// per consecutive pair.
    pub open spec fn seed_face_count(stars: Seq<usize>) -> int {
        if stars.len() == 0 {
            0
        } else {
            stars.len() - 1
        }
    }

    /// Traces one face for every consecutive pair of star directions
    /// around the given seed, anchoring each new face to its (seed, local
    /// index) pair. A seed with fewer than two star directions produces
    /// no faces; by deliberate design, a seed with `k >= 2` star
    /// directions produces exactly `k - 1` faces, one per consecutive
    /// pair, so three star directions yield two faces. Face `i` is traced
    /// from star direction `i` of the scan.
    pub fn generate_seed_faces(&mut self, seed: usize) -> (r: Result<(), TilingError>)
        requires
            old(self).wf(),
            seed < old(self).tiling.seeds@.len(),
            old(self).anchored_faces@.len() == old(self).mesh.faces@.len(),
        ensures
            final(self).wf(),
            final(self).tiling == old(self).tiling,
            final(self).cloud == old(self).cloud,
            final(self).anchored_faces@.len() == final(self).mesh.faces@.len(),
            final(self).mesh.vertices@.len() == old(self).mesh.vertices@.len(),
            forall|v: int|
                0 <= v < old(self).mesh.vertices@.len() ==> (#[trigger] final(self).mesh.vertices@[v]).position == old(self).mesh.vertices@[v].position,
            forall|g: int|
                0 <= g < old(self).mesh.faces@.len() ==> #[trigger] final(self).mesh.faces@[g]
                    == old(self).mesh.faces@[g],
            forall|g: int|
                0 <= g < old(self).mesh.faces@.len() ==> #[trigger] final(self).mesh.spans@[g]
                    == old(self).mesh.spans@[g],
            forall|e: int|
                0 <= e < old(self).mesh.half_edges@.len() ==> #[trigger] final(self).mesh.half_edges@[e] == old(self).mesh.half_edges@[e],
            forall|a: int|
                0 <= a < old(self).anchored_faces@.len() ==> #[trigger] final(self).anchored_faces@[a] == old(self).anchored_faces@[a],
            ({
                let cloud = old(self).cloud@;
                let pos = old(self).tiling.seeds@[seed as int].position;
                let stars = star_scan(cloud, pos, 10, 15);
                let budget = walk_budget(cloud.len() as int) as nat;
                let count = TilingMesh::seed_face_count(stars);
                let nf0 = old(self).mesh.faces@.len() as int;
                &&& old(self).mesh.half_edges@.len() <= final(self).mesh.half_edges@.len()
                &&& final(self).mesh.half_edges@.len() <= old(self).mesh.half_edges@.len()
                    + stars.len() * (budget + 1)
                &&& (r is Ok ==> {
                    &&& final(self).mesh.faces@.len() == nf0 + count
                    &&& forall|i: int|
                        0 <= i < count ==> #[trigger] final(self).anchored_faces@[nf0 + i] == (
                        (seed, i as usize))
                    &&& forall|i: int|
                        0 <= i < count ==> match face_walk(
                            cloud,
                            pos,
                            pos,
                            #[trigger] stars[i] as int,
                            budget,
                        ) {
                            WalkResult::Closed(vs) => {
                                &&& final(self).mesh.face_vertices(nf0 + i) == vs
                                &&& final(self).mesh.face_degree(nf0 + i) == vs.len()
                            },
                            _ => false,
                        }
                })
                &&& (r matches Err(e) ==> (e == TilingError::ArenaOverflow && cloud.len()
                    > MAX_CLOUD_POINTS) || exists|i: int|
                    0 <= i < count && match face_walk(
                        cloud,
                        pos,
                        pos,
                        #[trigger] stars[i] as int,
                        budget,
                    ) {
                        WalkResult::Open => e == TilingError::OpenWalk,
                        WalkResult::MissingEntry => e == TilingError::MissingCloudEntry,
                        WalkResult::Closed(vs) => (vs.len() < 3 && e
                            == TilingError::DegenerateWalk) || (vs.len() >= 3 && e
                            == TilingError::ArenaOverflow),
                    })
                // success is owed when the cloud is within bounds, every
                // scanned walk closes properly, and the half-edge arena has
                // room for the worst case
                &&& (cloud.len() <= MAX_CLOUD_POINTS && (forall|i: int|
                    0 <= i < count ==> match face_walk(
                        cloud,
                        pos,
                        pos,
                        #[trigger] stars[i] as int,
                        budget,
                    ) {
                        WalkResult::Closed(vs) => 3 <= vs.len(),
                        _ => false,
                    }) && old(self).mesh.half_edges@.len() + stars.len() * (budget + 1)
                    < usize::MAX ==> r is Ok)
            }),
    {
        let ghost cloud = self.cloud@;
        let ghost pos = self.tiling.seeds@[seed as int].position;
        let ghost budget = walk_budget(cloud.len() as int) as nat;
        let ghost nf0 = self.mesh.faces@.len() as int;
        let ghost he0 = self.mesh.half_edges@.len() as int;
        let star_directions = self.star_angles(seed, 10, 15);
        let ghost stars = star_directions@;
        let n = star_directions.len();

        if n == 0 {
            return Ok(());
        }
        let last = n - 1;

        for i in 0..last
            invariant
                self.wf(),
                self.tiling == old(self).tiling,
                self.cloud == old(self).cloud,
                cloud == self.cloud@,
                seed < self.tiling.seeds@.len(),
                pos == self.tiling.seeds@[seed as int].position,
                budget == walk_budget(cloud.len() as int) as nat,
                stars == star_scan(cloud, pos, 10, 15),
                n == stars.len(),
                1 <= n,
                last == n - 1,
                forall|q: int| 0 <= q < n ==> #[trigger] stars[q] < 12,
                star_directions@ == stars,
                nf0 == old(self).mesh.faces@.len(),
                he0 == old(self).mesh.half_edges@.len(),
                nf0 == old(self).anchored_faces@.len(),
                self.anchored_faces@.len() == self.mesh.faces@.len(),
                self.mesh.faces@.len() == nf0 + i,
                he0 <= self.mesh.half_edges@.len(),
                self.mesh.half_edges@.len() <= he0 + i * (budget + 1),
                self.mesh.vertices@.len() == old(self).mesh.vertices@.len(),
                forall|v: int|
                    0 <= v < old(self).mesh.vertices@.len() ==> (#[trigger] self.mesh.vertices@[v]).position == old(self).mesh.vertices@[v].position,
                forall|g: int|
                    0 <= g < nf0 ==> #[trigger] self.mesh.faces@[g] == old(self).mesh.faces@[g],
                forall|g: int|
                    0 <= g < nf0 ==> #[trigger] self.mesh.spans@[g] == old(self).mesh.spans@[g],
                forall|e: int|
                    0 <= e < he0 ==> #[trigger] self.mesh.half_edges@[e] == old(
                        self,
                    ).mesh.half_edges@[e],
                forall|a: int|
                    0 <= a < nf0 ==> #[trigger] self.anchored_faces@[a] == old(
                        self,
                    ).anchored_faces@[a],
                forall|q: int|
                    0 <= q < i ==> #[trigger] self.anchored_faces@[nf0 + q] == ((seed, q as usize)),
                forall|q: int|
                    0 <= q < i ==> match face_walk(cloud, pos, pos, #[trigger] stars[q] as int,
                        budget) {
                        WalkResult::Closed(vs) => {
                            &&& self.mesh.face_degree(nf0 + q) == vs.len()
                            &&& self.mesh.face_vertices(nf0 + q) == vs
                        },
                        _ => false,
                    },
        {
            let ghost mesh_before = self.mesh;
            let first_direction = star_directions[i];
            let face = match self.generate_face(seed, first_direction) {
                Ok(f) => f,
                Err(e) => {
                    proof {
                        let count = TilingMesh::seed_face_count(stars);
                        assert(0 <= (i as int) && (i as int) < count);
                        assert(i * (budget + 1) <= stars.len() * (budget + 1))
                            by (nonlinear_arith)
                            requires
                                0 <= i <= stars.len(),
                                budget + 1 >= 0,
                        ;
                        if cloud.len() <= MAX_CLOUD_POINTS {
                            match face_walk(cloud, pos, pos, stars[i as int] as int, budget) {
                                WalkResult::Closed(vs) => {
                                    lemma_walk_len(cloud, pos, pos, stars[i as int] as int,
                                        budget);
                                    if 3 <= vs.len() {
                                        // only the half-edge arena can have
                                        // failed, so the worst-case budget
                                        // was already insufficient
                                        assert(self.mesh.half_edges@.len() + vs.len()
                                            >= usize::MAX);
                                        assert((i + 1) * (budget + 1) == i * (budget + 1) + (
                                        budget + 1)) by (nonlinear_arith);
                                        assert((i + 1) * (budget + 1) <= n * (budget + 1))
                                            by (nonlinear_arith)
                                            requires
                                                i + 1 <= n,
                                                budget + 1 >= 0,
                                        ;
                                        assert(he0 + n * (budget + 1) >= usize::MAX);
                                    }
                                },
                                _ => {},
                            }
                        }
                    }
                    return Err(e);
                },
            };
            self.anchored_faces.push((seed, i));
            proof {
                lemma_walk_len(cloud, pos, pos, stars[i as int] as int, budget);
                assert forall|e: int|
                    0 <= e < he0 implies #[trigger] self.mesh.half_edges@[e] == old(
                    self,
                ).mesh.half_edges@[e] by {
                    assert(self.mesh.half_edges@[e] == mesh_before.half_edges@[e]);
                }
                assert forall|g: int|
                    0 <= g < nf0 implies #[trigger] self.mesh.faces@[g] == old(
                    self,
                ).mesh.faces@[g] && #[trigger] self.mesh.spans@[g] == old(self).mesh.spans@[g]
                    by {
                    assert(self.mesh.faces@[g] == mesh_before.faces@[g]);
                    assert(self.mesh.spans@[g] == mesh_before.spans@[g]);
                }
                assert forall|q: int|
                    0 <= q < i + 1 implies match face_walk(cloud, pos, pos,
                    #[trigger] stars[q] as int, budget) {
                    WalkResult::Closed(vs) => {
                        &&& self.mesh.face_degree(nf0 + q) == vs.len()
                        &&& self.mesh.face_vertices(nf0 + q) == vs
                    },
                    _ => false,
                } by {
                    if q < i {
                        match face_walk(cloud, pos, pos, stars[q] as int, budget) {
                            WalkResult::Closed(vs) => {
                                crate::mesh::lemma_face_boundary_frame(mesh_before, self.mesh,
                                    nf0 + q);
                            },
                            _ => {},
                        }
                    }
                }
                assert((i + 1) * (budget + 1) == i * (budget + 1) + (budget + 1))
                    by (nonlinear_arith);
                assert((i + 1) * (budget + 1) <= stars.len() * (budget + 1))
                    by (nonlinear_arith)
                    requires
                        i + 1 <= stars.len(),
                        budget + 1 >= 0,
                ;
            }
        }
        proof {
            assert(last * (budget + 1) <= stars.len() * (budget + 1)) by (nonlinear_arith)
                requires
                    0 <= last <= stars.len(),
                    budget + 1 >= 0,
            ;
        }
        Ok(())
    }

    /// Face `f` of the mesh is the polygon traced by the walk from the
    /// star direction its anchor records, against the current cloud.
    pub open spec fn face_traced(self, f: int) -> bool {
        let (s, i) = self.anchored_faces@[f];
        let pos = self.tiling.seeds@[s as int].position;
        let stars = star_scan(self.cloud@, pos, 10, 15);
        let budget = walk_budget(self.cloud@.len() as int) as nat;
        &&& (s as int) < self.tiling.seeds@.len()
        &&& (i as int) < TilingMesh::seed_face_count(stars)
        &&& match face_walk(self.cloud@, pos, pos, stars[i as int] as int, budget) {
            WalkResult::Closed(vs) => self.mesh.face_vertices(f) == vs && self.mesh.face_degree(
                f,
            ) == vs.len(),
            _ => false,
        }
    }

    /// Total number of faces the first `upto` seeds trace.
    pub open spec fn traced_total(
        t: IntegerTiling,
        cloud: Seq<(TilingVector, CloudVertex)>,
        upto: int,
    ) -> int
        decreases upto,
    {
        if upto <= 0 {
            0
        } else {
            TilingMesh::traced_total(t, cloud, upto - 1) + TilingMesh::seed_face_count(
                star_scan(cloud, t.seeds@[upto - 1].position, 10, 15),
            )
        }
    }

    /// Generates the faces of every seed.
    pub fn generate_faces(&mut self) -> (r: Result<(), TilingError>)
        requires
            old(self).wf(),
            old(self).anchored_faces@.len() == old(self).mesh.faces@.len(),
        ensures
            final(self).wf(),
            final(self).tiling == old(self).tiling,
            final(self).cloud == old(self).cloud,
            final(self).anchored_faces@.len() == final(self).mesh.faces@.len(),
            final(self).mesh.vertices@.len() == old(self).mesh.vertices@.len(),
            forall|v: int|
                0 <= v < old(self).mesh.vertices@.len() ==> (#[trigger] final(self).mesh.vertices@[v]).position == old(self).mesh.vertices@[v].position,
            ({
                let cloud = old(self).cloud@;
                let t = old(self).tiling;
                let ns = t.seeds@.len() as int;
                let budget = walk_budget(cloud.len() as int) as nat;
                let nf0 = old(self).mesh.faces@.len() as int;
                &&& (r is Ok ==> {
                    &&& final(self).mesh.faces@.len() == nf0 + TilingMesh::traced_total(
                        t,
                        cloud,
                        ns,
                    )
                    &&& forall|f: int|
                        nf0 <= f < final(self).mesh.faces@.len() ==> final(self).face_traced(f)
                })
                &&& (r matches Err(e) ==> e == TilingError::ArenaOverflow || exists|s: int, i: int|
                    0 <= s < ns && 0 <= i < TilingMesh::seed_face_count(
                        star_scan(cloud, t.seeds@[s].position, 10, 15),
                    ) && match face_walk(
                        cloud,
                        t.seeds@[s].position,
                        t.seeds@[s].position,
                        #[trigger] star_scan(cloud, t.seeds@[s].position, 10, 15)[i] as int,
                        budget,
                    ) {
                        WalkResult::Open => e == TilingError::OpenWalk,
                        WalkResult::MissingEntry => e == TilingError::MissingCloudEntry,
                        WalkResult::Closed(vs) => vs.len() < 3 && e
                            == TilingError::DegenerateWalk,
                    })
                // success is owed when the cloud is within bounds, every
                // scanned walk of every seed closes with at least three
                // vertices, and the arena has worst-case room
                &&& ((cloud.len() <= MAX_CLOUD_POINTS && (forall|s: int, i: int|
                    0 <= s < ns && 0 <= i < TilingMesh::seed_face_count(
                        star_scan(cloud, t.seeds@[s].position, 10, 15),
                    ) ==> match face_walk(
                        cloud,
                        t.seeds@[s].position,
                        t.seeds@[s].position,
                        #[trigger] star_scan(cloud, t.seeds@[s].position, 10, 15)[i] as int,
                        budget,
                    ) {
                        WalkResult::Closed(vs) => 3 <= vs.len(),
                        _ => false,
                    }) && old(self).mesh.half_edges@.len() + ns * (6 * (budget + 1))
                    < usize::MAX) ==> r is Ok)
            }),
    {
        let ghost cloud = self.cloud@;
        let ghost t = self.tiling;
        let ghost budget = walk_budget(cloud.len() as int) as nat;
        let ghost nf0 = self.mesh.faces@.len() as int;
        let ghost he0 = self.mesh.half_edges@.len() as int;
        let n = self.tiling.seeds.len();
        for s in 0..n
            invariant
                self.wf(),
                self.tiling == old(self).tiling,
                self.cloud == old(self).cloud,
                cloud == self.cloud@,
                t == self.tiling,
                budget == walk_budget(cloud.len() as int) as nat,
                n == self.tiling.seeds@.len(),
                nf0 == old(self).mesh.faces@.len(),
                he0 == old(self).mesh.half_edges@.len(),
                self.anchored_faces@.len() == self.mesh.faces@.len(),
                self.mesh.faces@.len() == nf0 + TilingMesh::traced_total(t, cloud, s as int),
                self.mesh.half_edges@.len() <= he0 + s * (6 * (budget + 1)),
                self.mesh.vertices@.len() == old(self).mesh.vertices@.len(),
                forall|v: int|
                    0 <= v < old(self).mesh.vertices@.len() ==> (#[trigger] self.mesh.vertices@[v]).position == old(self).mesh.vertices@[v].position,
                forall|f: int| nf0 <= f < self.mesh.faces@.len() ==> self.face_traced(f),
        {
            let ghost before = *self;
            match self.generate_seed_faces(s) {
                Ok(()) => {},
                Err(e) => {
                    proof {
                        let pos = t.seeds@[s as int].position;
                        let stars = star_scan(cloud, pos, 10, 15);
                        lemma_star_scan_len(cloud, pos, 10, 15);
                        if e != TilingError::ArenaOverflow {
                            let wi = choose|i: int|
                                0 <= i < TilingMesh::seed_face_count(stars) && match face_walk(
                                    cloud,
                                    pos,
                                    pos,
                                    #[trigger] stars[i] as int,
                                    budget,
                                ) {
                                    WalkResult::Open => e == TilingError::OpenWalk,
                                    WalkResult::MissingEntry => e
                                        == TilingError::MissingCloudEntry,
                                    WalkResult::Closed(vs) => (vs.len() < 3 && e
                                        == TilingError::DegenerateWalk) || (vs.len() >= 3 && e
                                        == TilingError::ArenaOverflow),
                                };
                            assert(0 <= (s as int) && (s as int) < n);
                        }
                        assert(stars.len() * (budget + 1) <= 6 * (budget + 1))
                            by (nonlinear_arith)
                            requires
                                0 <= stars.len() <= 6,
                                budget + 1 >= 0,
                        ;
                        assert((s + 1) * (6 * (budget + 1)) == s * (6 * (budget + 1)) + 6 * (
                        budget + 1)) by (nonlinear_arith);
                        assert((s + 1) * (6 * (budget + 1)) <= n * (6 * (budget + 1)))
                            by (nonlinear_arith)
                            requires
                                s + 1 <= n,
                                budget + 1 >= 0,
                        ;
                        // under the owed premise this seed could not have
                        // failed
                        if cloud.len() <= MAX_CLOUD_POINTS && (forall|s2: int, i2: int|
                            0 <= s2 < n && 0 <= i2 < TilingMesh::seed_face_count(
                                star_scan(cloud, t.seeds@[s2].position, 10, 15),
                            ) ==> match face_walk(
                                cloud,
                                t.seeds@[s2].position,
                                t.seeds@[s2].position,
                                #[trigger] star_scan(cloud, t.seeds@[s2].position, 10, 15)[
                                i2] as int,
                                budget,
                            ) {
                                WalkResult::Closed(vs) => 3 <= vs.len(),
                                _ => false,
                            }) && he0 + n * (6 * (budget + 1)) < usize::MAX {
                            assert forall|i2: int|
                                0 <= i2 < TilingMesh::seed_face_count(stars) implies match
                                face_walk(cloud, pos, pos, #[trigger] stars[i2] as int,
                                budget) {
                                WalkResult::Closed(vs) => 3 <= vs.len(),
                                _ => false,
                            } by {
                                assert(star_scan(cloud, t.seeds@[s as int].position, 10, 15)[
                                i2] == stars[i2]);
                            }
                            assert(before.mesh.half_edges@.len() + stars.len() * (budget + 1)
                                < usize::MAX);
                            assert(false);
                        }
                    }
                    return Err(e);
                },
            }
            proof {
                let pos = t.seeds@[s as int].position;
                let stars = star_scan(cloud, pos, 10, 15);
                lemma_star_scan_len(cloud, pos, 10, 15);
                assert(stars.len() * (budget + 1) <= 6 * (budget + 1)) by (nonlinear_arith)
                    requires
                        0 <= stars.len() <= 6,
                        budget + 1 >= 0,
                ;
                assert((s + 1) * (6 * (budget + 1)) == s * (6 * (budget + 1)) + 6 * (budget
                    + 1)) by (nonlinear_arith);
                let stars_here = star_scan(cloud, pos, 10, 15);
                assert forall|f: int|
                    nf0 <= f < self.mesh.faces@.len() implies self.face_traced(f) by {
                    if f < before.mesh.faces@.len() {
                        assert(before.face_traced(f));
                        assert(self.anchored_faces@[f] == before.anchored_faces@[f]);
                        match face_walk(cloud, t.seeds@[self.anchored_faces@[f].0 as int].position,
                            t.seeds@[self.anchored_faces@[f].0 as int].position,
                            star_scan(cloud, t.seeds@[self.anchored_faces@[f].0 as int].position,
                                10, 15)[self.anchored_faces@[f].1 as int] as int, budget) {
                            WalkResult::Closed(vs) => {
                                crate::mesh::lemma_face_boundary_frame(before.mesh, self.mesh,
                                    f);
                            },
                            _ => {},
                        }
                    } else {
                        let i = f - before.mesh.faces@.len();
                        assert(self.anchored_faces@[before.mesh.faces@.len() as int + i] == ((
                        s,
                        i as usize,
                        )));
                        assert(0 <= i < TilingMesh::seed_face_count(stars_here));
                        assert(stars_here[i] == star_scan(cloud,
                            t.seeds@[s as int].position, 10, 15)[i]);
                        assert(self.mesh.face_vertices(before.mesh.faces@.len() as int + i)
                            == self.mesh.face_vertices(f));
                    }
                }
            }
        }
        Ok(())
    }

    /// Builds the cloud, then traces every face.
    pub fn compute_mesh(&mut self) -> (r: Result<(), TilingError>)
        requires
            old(self).wf(),
            old(self).anchored_faces@.len() == old(self).mesh.faces@.len(),
        ensures
            final(self).wf(),
            final(self).tiling == old(self).tiling,
            final(self).anchored_faces@.len() == final(self).mesh.faces@.len(),
            old(self).cloud@.len() <= final(self).cloud@.len(),
            forall|c: int|
                0 <= c < old(self).cloud@.len() ==> #[trigger] final(self).cloud@[c] == old(
                    self,
                ).cloud@[c],
            // success is owed when every instance projects in bounds, the
            // cloud stays within its size bound, every scanned walk closes
            // with at least three vertices, and the arenas have room
            ({
                let t = old(self).tiling;
                let cloud = final(self).cloud@;
                let ns = t.seeds@.len() as int;
                let budget = walk_budget(cloud.len() as int) as nat;
                ((forall|s: int, di: int, dj: int|
                    0 <= s < ns && -1 <= di <= 1 && -1 <= dj <= 1 ==> projection_in_bounds(
                        t.basis,
                        #[trigger] seed_instance(t, s, di, dj),
                    )) && cloud.len() <= MAX_CLOUD_POINTS && (forall|s: int, i: int|
                    0 <= s < ns && 0 <= i < TilingMesh::seed_face_count(
                        star_scan(cloud, t.seeds@[s].position, 10, 15),
                    ) ==> match face_walk(
                        cloud,
                        t.seeds@[s].position,
                        t.seeds@[s].position,
                        #[trigger] star_scan(cloud, t.seeds@[s].position, 10, 15)[i] as int,
                        budget,
                    ) {
                        WalkResult::Closed(vs) => 3 <= vs.len(),
                        _ => false,
                    }) && old(self).mesh.half_edges@.len() + ns * (6 * (budget + 1))
                    < usize::MAX) ==> r is Ok
            }),
            r is Ok ==> {
                let t = final(self).tiling;
                let cloud = final(self).cloud@;
                // the cloud covers every seed instance, and every added
                // entry is an instance carried at its projected position
                &&& forall|s: int, di: int, dj: int|
                    0 <= s < t.seeds@.len() && -1 <= di <= 1 && -1 <= dj <= 1 ==> cloud_has(
                        cloud,
                        #[trigger] seed_instance(t, s, di, dj),
                    )
                &&& forall|c: int|
                    old(self).cloud@.len() <= c < cloud.len() ==> entry_originates(
                        t,
                        #[trigger] cloud[c],
                    )
                &&& forall|c: int|
                    old(self).cloud@.len() <= c < cloud.len() ==> (#[trigger] final(self).mesh.vertices@[cloud[c].1.index as int]).position == projected_point(
                        t.basis,
                        cloud[c].0,
                    )
                // one traced polygon per consecutive star-direction pair of
                // every seed, each anchored and equal to its walk
                &&& final(self).mesh.faces@.len() == old(self).mesh.faces@.len()
                    + TilingMesh::traced_total(t, cloud, t.seeds@.len() as int)
                &&& forall|f: int|
                    old(self).mesh.faces@.len() <= f < final(self).mesh.faces@.len()
                        ==> final(self).face_traced(f)
            },
            r matches Err(e) ==> {
                let t = old(self).tiling;
                let cloud = final(self).cloud@;
                let budget = walk_budget(cloud.len() as int) as nat;
                ||| (e == TilingError::CoordinateOverflow && exists|s: int, di: int, dj: int|
                    0 <= s < t.seeds@.len() && -1 <= di <= 1 && -1 <= dj <= 1
                        && !projection_in_bounds(
                        t.basis,
                        #[trigger] seed_instance(t, s, di, dj),
                    ))
                ||| e == TilingError::ArenaOverflow
                ||| exists|s: int, i: int|
                    0 <= s < t.seeds@.len() && 0 <= i < TilingMesh::seed_face_count(
                        star_scan(cloud, t.seeds@[s].position, 10, 15),
                    ) && match face_walk(
                        cloud,
                        t.seeds@[s].position,
                        t.seeds@[s].position,
                        #[trigger] star_scan(cloud, t.seeds@[s].position, 10, 15)[i] as int,
                        budget,
                    ) {
                        WalkResult::Open => e == TilingError::OpenWalk,
                        WalkResult::MissingEntry => e == TilingError::MissingCloudEntry,
                        WalkResult::Closed(vs) => vs.len() < 3 && e
                            == TilingError::DegenerateWalk,
                    }
            },
    {
        match self.init_cloud() {
            Ok(()) => {},
            Err(e) => {
                return Err(e);
            },
        }
        let ghost mid = *self;
        let r = self.generate_faces();
        proof {
            if r is Ok {
                assert forall|c: int|
                    old(self).cloud@.len() <= c < final(self).cloud@.len() implies (
                #[trigger] final(self).mesh.vertices@[final(self).cloud@[c].1.index as int]).position == projected_point(
                    final(self).tiling.basis,
                    final(self).cloud@[c].0,
                ) by {
                    assert(mid.cloud@[c].1.index < mid.mesh.vertices@.len());
                    assert(final(self).mesh.vertices@[mid.cloud@[c].1.index as int].position
                        == mid.mesh.vertices@[mid.cloud@[c].1.index as int].position);
                }
            }
        }
        r
    }

    /// The profile a generated face was declared with: the declared
    /// profile's offsets when the anchor points at a declared face with a
    /// profile, the empty profile otherwise.
    pub open spec fn declared_profile(self, face: int) -> Seq<(i32, i32)> {
        let (s, k) = self.anchored_faces@[face];
        match self.tiling.seeds@[s as int].faces {
            Some(fs) => if k < fs@.len() {
                match fs@[k as int].profile {
                    Some(p) => self.tiling.profiles@[p as int].offsets@,
                    None => Seq::empty(),
                }
            } else {
                Seq::empty()
            },
            None => Seq::empty(),
        }
    }

    /// The material index a generated face was declared with, or the
    /// implicit default of zero.
    pub open spec fn declared_material(self, face: int) -> usize {
        let (s, k) = self.anchored_faces@[face];
        match self.tiling.seeds@[s as int].faces {
            Some(fs) => if k < fs@.len() {
                fs@[k as int].material
            } else {
                0
            },
            None => 0,
        }
    }

    /// Builds one tower per generated face, each over that face's boundary
    /// positions with its declared profile, tagged with its declared
    /// material. Success is owed when every face's declared profile is
    /// empty and its boundary satisfies `tower_base_ok`.
    pub fn make_towers(&self) -> (r: Result<TowerTiling, TilingError>)
        requires
            self.wf(),
            self.anchored_faces@.len() == self.mesh.faces@.len(),
        ensures
            (forall|f: int|
                0 <= f < self.mesh.faces@.len() ==> (#[trigger] self.declared_profile(f)).len()
                    == 0 && crate::towers::tower_base_ok(self.mesh.face_positions(f))) ==> r
                is Ok,
            match r {
                Ok(t) => {
                    &&& t.wf()
                    &&& t.meshes@.len() == self.mesh.faces@.len()
                    &&& forall|i: int|
                        0 <= i < t.meshes@.len() ==> #[trigger] t.materials@[i]
                            == self.declared_material(i)
                    // tower `i` is built over face `i`'s boundary with its
                    // declared profile
                    &&& forall|i: int|
                        0 <= i < t.meshes@.len() ==> crate::towers::tower_built_over(
                            #[trigger] t.meshes@[i],
                            self.mesh.face_positions(i),
                            self.declared_profile(i).len() as int,
                        )
                },
                Err(e) => e is Tower && exists|f: int|
                    0 <= f < self.mesh.faces@.len() && !((#[trigger] self.declared_profile(
                        f,
                    )).len() == 0 && crate::towers::tower_base_ok(self.mesh.face_positions(f))),
            },
    {
        let n = self.mesh.faces.len();
        let mut towers = TowerTiling::new();
        let empty_profile: Vec<(i32, i32)> = Vec::new();
        for face in 0..n
            invariant
                self.wf(),
                self.anchored_faces@.len() == self.mesh.faces@.len(),
                n == self.mesh.faces@.len(),
                towers.wf(),
                towers.meshes@.len() == face,
                forall|q: int|
                    0 <= q < face ==> #[trigger] towers.materials@[q] == self.declared_material(
                        q,
                    ),
                forall|q: int|
                    0 <= q < face ==> crate::towers::tower_built_over(
                        #[trigger] towers.meshes@[q],
                        self.mesh.face_positions(q),
                        self.declared_profile(q).len() as int,
                    ),
                empty_profile@.len() == 0,
        {
            let (seed, anchored_face) = self.anchored_faces[face];

            let mut material: usize = 0;
            let mut profile_index: Option<usize> = None;
            match &self.tiling.seeds[seed].faces {
                Some(faces) => {
                    if anchored_face < faces.len() {
                        material = faces[anchored_face].material;
                        profile_index = faces[anchored_face].profile;
                        proof {
                            assert(self.tiling.seed_faces_ok(seed as int));
                        }
                    }
                },
                None => {},
            }

            let base = self.mesh.get_face_positions(face);
            proof {
                assert(self.mesh.wf_face(face as int));
            }
            let ghost prior = towers;
            let outcome = match profile_index {
                Some(p) => {
                    proof {
                        assert(self.tiling.seed_faces_ok(seed as int));
                        assert(self.declared_profile(face as int) == self.tiling.profiles@[
                        p as int].offsets@);
                    }
                    towers.add_tower(&base, &self.tiling.profiles[p].offsets, material)
                },
                None => {
                    proof {
                        assert(self.declared_profile(face as int) =~= Seq::<(i32, i32)>::empty());
                    }
                    towers.add_tower(&base, &empty_profile, material)
                },
            };
            match outcome {
                Ok(()) => {},
                Err(e) => {
                    proof {
                        // a tower that fails violates its own success
                        // condition, naming the witness face
                        assert(!(self.declared_profile(face as int).len() == 0
                            && crate::towers::tower_base_ok(self.mesh.face_positions(
                            face as int,
                        ))));
                    }
                    return Err(TilingError::Tower(e));
                },
            }
            proof {
                assert(towers.materials@.last() == self.declared_material(face as int));
                assert(crate::towers::tower_built_over(towers.meshes@.last(),
                    self.mesh.face_positions(face as int),
                    self.declared_profile(face as int).len() as int));
            }
        }
        Ok(towers)
    }

    /// The lattice point one step from `position` in the given direction.
    fn get_adjacent(&self, position: TilingVector, direction: usize) -> (r: TilingVector)
        requires
            self.wf(),
            -WALK_LIMIT <= position.0 <= WALK_LIMIT,
            -WALK_LIMIT <= position.1 <= WALK_LIMIT,
            -WALK_LIMIT <= position.2 <= WALK_LIMIT,
            -WALK_LIMIT <= position.3 <= WALK_LIMIT,
        ensures
            r == adjacent_point(position, direction as int),
            -WALK_LIMIT - 1 <= r.0 <= WALK_LIMIT + 1,
            -WALK_LIMIT - 1 <= r.1 <= WALK_LIMIT + 1,
            -WALK_LIMIT - 1 <= r.2 <= WALK_LIMIT + 1,
            -WALK_LIMIT - 1 <= r.3 <= WALK_LIMIT + 1,
    {
        let (a, b, c, d) = position;
        let (da, db, dc, dd) = self.basis_coefficients[direction % 12];
        proof {
            vstd::arithmetic::div_mod::lemma_mod_bound(direction as int, 12);
            assert(basis_coefficients()[direction as int % 12].0 == da);
        }
        (a + da, b + db, c + dc, d + dd)
    }
}

/// A lattice point within three times the coordinate limit: every seed
/// instance of a valid tiling lies within it.
pub open spec fn lattice_in_triple_bounds(p: TilingVector) -> bool {
    &&& -3 * LATTICE_LIMIT <= p.0 <= 3 * LATTICE_LIMIT
    &&& -3 * LATTICE_LIMIT <= p.1 <= 3 * LATTICE_LIMIT
    &&& -3 * LATTICE_LIMIT <= p.2 <= 3 * LATTICE_LIMIT
    &&& -3 * LATTICE_LIMIT <= p.3 <= 3 * LATTICE_LIMIT
}

/// Adding an entry never removes a lattice point from the cloud.
proof fn lemma_cloud_has_monotone(cloud: Seq<(TilingVector, CloudVertex)>)
    ensures
        forall|prefix: Seq<(TilingVector, CloudVertex)>, p: TilingVector|
            prefix.len() <= cloud.len() && (forall|i: int|
                0 <= i < prefix.len() ==> #[trigger] cloud[i] == prefix[i]) && #[trigger] cloud_has(
                prefix,
                p,
            ) ==> cloud_has(cloud, p),
{
    assert forall|prefix: Seq<(TilingVector, CloudVertex)>, p: TilingVector|
        prefix.len() <= cloud.len() && (forall|i: int|
            0 <= i < prefix.len() ==> #[trigger] cloud[i] == prefix[i]) && #[trigger] cloud_has(
            prefix,
            p,
        ) implies cloud_has(cloud, p) by {
        let w = choose|i: int| 0 <= i < prefix.len() && (#[trigger] prefix[i]).0 == p;
        assert(cloud[w].0 == p);
    }
}

/// One projection term stays inside `i128`.
proof fn lemma_projection_term_bounds(c: int, b: int)
    requires
        -3 * LATTICE_LIMIT <= c <= 3 * LATTICE_LIMIT,
        -1000000 <= b <= 1000000,
    ensures
        -3298534883328000000 <= c * b <= 3298534883328000000,
{
    crate::vec3::lemma_mul_le(c, b, 3 * LATTICE_LIMIT, 1000000);
}

} // verus!
